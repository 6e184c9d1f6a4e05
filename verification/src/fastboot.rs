//! Command plans for the external `fastboot` and `adb` binaries.
//!
//! Each method computes the exact argument vector the external tool
//! is invoked with; running the process and capturing its output is
//! the caller's side of the split.

use vstd::prelude::*;
use vstd::string::StringSliceAdditionalSpecFns;
use crate::error::FlashError;

verus! {

/// Handle on the external fastboot binary: the path it was resolved
/// to. The path lookup itself happens outside the library.
#[derive(Debug, Clone)]
pub struct FastbootManager {
    /// Where the fastboot executable is expected.
    pub executable_path: String,
}

/// One connected device as reported by the external tools.
#[derive(Debug, Clone)]
pub struct Device {
    pub serial: String,
    pub mode: String,
    pub status: String,
}

impl FastbootManager {
    /// A manager for the executable at `path`.
    pub fn from_path(path: String) -> (r: FastbootManager)
        ensures
            r.executable_path@ == path@,
    {
        FastbootManager { executable_path: path }
    }

    /// The resolved executable path.
    pub fn get_path(&self) -> (r: &String)
        ensures
            r@ == self.executable_path@,
    {
        &self.executable_path
    }

    /// Arguments that flash `file_path` to `partition`.
    pub fn flash(&self, partition: &str, file_path: &str) -> (r: Vec<String>)
        ensures
            r@.len() == 3,
            r@[0]@ == "flash"@,
            r@[1]@ == partition@,
            r@[2]@ == file_path@,
    {
        let mut v: Vec<String> = Vec::new();
        v.push("flash".to_owned());
        v.push(partition.to_owned());
        v.push(file_path.to_owned());
        v
    }

    /// Arguments that reboot the device, optionally into a target.
    pub fn reboot(&self, target: Option<&str>) -> (r: Vec<String>)
        ensures
            r@[0]@ == "reboot"@,
            target matches Some(t) ==> r@.len() == 2 && r@[1]@ == t@,
            target is None ==> r@.len() == 1,
    {
        let mut v: Vec<String> = Vec::new();
        v.push("reboot".to_owned());
        match target {
            Some(t) => {
                v.push(t.to_owned());
            }
            None => {}
        }
        v
    }

    /// Arguments that query one bootloader variable.
    pub fn get_var(&self, var: &str) -> (r: Vec<String>)
        ensures
            r@.len() == 2,
            r@[0]@ == "getvar"@,
            r@[1]@ == var@,
    {
        let mut v: Vec<String> = Vec::new();
        v.push("getvar".to_owned());
        v.push(var.to_owned());
        v
    }

    /// Arguments that query the active slot.
    pub fn get_current_slot(&self) -> (r: Vec<String>)
        ensures
            r@.len() == 2,
            r@[0]@ == "getvar"@,
            r@[1]@ == "current-slot"@,
    {
        self.get_var("current-slot")
    }

    /// Arguments that set the active slot.
    pub fn set_active_slot(&self, slot: &str) -> (r: Vec<String>)
        ensures
            r@.len() == 2,
            r@[0]@ == "--set-active"@,
            r@[1]@ == slot@,
    {
        let mut v: Vec<String> = Vec::new();
        v.push("--set-active".to_owned());
        v.push(slot.to_owned());
        v
    }

    /// Arguments for `flashing unlock`.
    pub fn flashing_unlock(&self) -> (r: Vec<String>)
        ensures
            r@.len() == 2,
            r@[0]@ == "flashing"@,
            r@[1]@ == "unlock"@,
    {
        let mut v: Vec<String> = Vec::new();
        v.push("flashing".to_owned());
        v.push("unlock".to_owned());
        v
    }

    /// Arguments for `flashing lock`.
    pub fn flashing_lock(&self) -> (r: Vec<String>)
        ensures
            r@.len() == 2,
            r@[0]@ == "flashing"@,
            r@[1]@ == "lock"@,
    {
        let mut v: Vec<String> = Vec::new();
        v.push("flashing".to_owned());
        v.push("lock".to_owned());
        v
    }

    /// Arguments for a factory reset (`fastboot -w`).
    pub fn format_w(&self) -> (r: Vec<String>)
        ensures
            r@.len() == 1,
            r@[0]@ == "-w"@,
    {
        let mut v: Vec<String> = Vec::new();
        v.push("-w".to_owned());
        v
    }

    /// Arguments that erase a partition.
    pub fn erase(&self, partition: &str) -> (r: Vec<String>)
        ensures
            r@.len() == 2,
            r@[0]@ == "erase"@,
            r@[1]@ == partition@,
    {
        let mut v: Vec<String> = Vec::new();
        v.push("erase".to_owned());
        v.push(partition.to_owned());
        v
    }

    /// Arguments for `oem unlock`.
    pub fn oem_unlock(&self) -> (r: Vec<String>)
        ensures
            r@.len() == 2,
            r@[0]@ == "oem"@,
            r@[1]@ == "unlock"@,
    {
        let mut v: Vec<String> = Vec::new();
        v.push("oem".to_owned());
        v.push("unlock".to_owned());
        v
    }

    /// Arguments for `oem lock`.
    pub fn oem_lock(&self) -> (r: Vec<String>)
        ensures
            r@.len() == 2,
            r@[0]@ == "oem"@,
            r@[1]@ == "lock"@,
    {
        let mut v: Vec<String> = Vec::new();
        v.push("oem".to_owned());
        v.push("lock".to_owned());
        v
    }

    /// The command sequence tried to reach EDL mode: `oem edl`, then
    /// `reboot edl` over adb, then `reboot edl` over fastboot; the
    /// caller stops at the first that succeeds.
    pub fn reboot_edl(&self) -> (r: Vec<Vec<String>>)
        ensures
            r@.len() == 3,
            r@[0]@.len() == 2 && r@[0]@[0]@ == "oem"@ && r@[0]@[1]@ == "edl"@,
            r@[1]@.len() == 2 && r@[1]@[0]@ == "reboot"@ && r@[1]@[1]@ == "edl"@,
            r@[2]@.len() == 2 && r@[2]@[0]@ == "reboot"@ && r@[2]@[1]@ == "edl"@,
    {
        let mut a: Vec<String> = Vec::new();
        a.push("oem".to_owned());
        a.push("edl".to_owned());
        let mut b: Vec<String> = Vec::new();
        b.push("reboot".to_owned());
        b.push("edl".to_owned());
        let mut c: Vec<String> = Vec::new();
        c.push("reboot".to_owned());
        c.push("edl".to_owned());
        let mut v: Vec<Vec<String>> = Vec::new();
        v.push(a);
        v.push(b);
        v.push(c);
        v
    }

    /// Arguments that read one system property over adb.
    pub fn get_adb_var(&self, sn: &str, prop: &str) -> (r: Vec<String>)
        ensures
            r@.len() == 5,
            r@[0]@ == "-s"@,
            r@[1]@ == sn@,
            r@[2]@ == "shell"@,
            r@[3]@ == "getprop"@,
            r@[4]@ == prop@,
    {
        let mut v: Vec<String> = Vec::new();
        v.push("-s".to_owned());
        v.push(sn.to_owned());
        v.push("shell".to_owned());
        v.push("getprop".to_owned());
        v.push(prop.to_owned());
        v
    }

    /// The scratch file name the flash protocol copies an image to.
    pub fn scratch_name(&self, partition: &str) -> (r: String)
        ensures
            r@ == partition@ + "_temp_boot.img"@,
    {
        crate::strutil::concat_str(partition, "_temp_boot.img")
    }

    /// Arguments that flash `file_path` to `partition`, addressing a
    /// serial when one is given.
    pub fn flash_with_serial(&self, serial: Option<&str>, partition: &str, file_path: &str)
        -> (r: Vec<String>)
        ensures
            serial matches Some(sn) ==> r@.len() == 5 && r@[0]@ == "-s"@ && r@[1]@ == sn@
                && r@[2]@ == "flash"@ && r@[3]@ == partition@ && r@[4]@ == file_path@,
            serial is None ==> r@.len() == 3 && r@[0]@ == "flash"@ && r@[1]@ == partition@
                && r@[2]@ == file_path@,
    {
        let mut v: Vec<String> = Vec::new();
        match serial {
            Some(sn) => {
                v.push("-s".to_owned());
                v.push(sn.to_owned());
            }
            None => {}
        }
        v.push("flash".to_owned());
        v.push(partition.to_owned());
        v.push(file_path.to_owned());
        v
    }

    /// Whether a captured `is-userspace` value announces fastbootd.
    pub fn is_fastbootd(&self, is_userspace_value: &str) -> (r: bool)
        ensures
            r == (is_userspace_value.spec_bytes() =~= seq![121u8, 101u8, 115u8]),
    {
        let b = is_userspace_value.as_bytes();
        let r = b.len() == 3 && b[0] == 121 && b[1] == 101 && b[2] == 115;
        proof {
            if r {
                assert(b@ =~= seq![121u8, 101u8, 115u8]);
            } else {
                if b@.len() == 3 {
                    assert(b@ =~= seq![b@[0], b@[1], b@[2]]);
                }
            }
        }
        r
    }
}

// ---------------------------------------------------------------------------
// Parsing the captured output of the external tools.

/// ASCII whitespace as the tools emit it.
pub open spec fn is_ws(b: u8) -> bool {
    b == 32 || b == 9 || b == 10 || b == 13
}

/// Index of the first occurrence of `b`, or the length when absent.
pub open spec fn first_byte(d: Seq<u8>, b: u8) -> int
    decreases d.len(),
{
    if d.len() == 0 {
        0
    } else if d[0] == b {
        0
    } else {
        1 + first_byte(d.drop_first(), b)
    }
}

/// `s` without its leading ASCII whitespace.
pub open spec fn trim_front(s: Seq<u8>) -> Seq<u8>
    decreases s.len(),
{
    if s.len() > 0 && is_ws(s[0]) {
        trim_front(s.drop_first())
    } else {
        s
    }
}

/// `s` without its trailing ASCII whitespace.
pub open spec fn trim_back(s: Seq<u8>) -> Seq<u8>
    decreases s.len(),
{
    if s.len() > 0 && is_ws(s.last()) {
        trim_back(s.drop_last())
    } else {
        s
    }
}

/// `s` without ASCII whitespace at either end.
pub open spec fn trim_spec(s: Seq<u8>) -> Seq<u8> {
    trim_back(trim_front(s))
}

/// The value `fastboot getvar` reported for `var` in the captured
/// text: walking the lines (split at newlines, one trailing carriage
/// return stripped), the first line containing both `var` and a colon
/// yields the text after its first colon, trimmed.
pub open spec fn getvar_lookup(d: Seq<u8>, var: Seq<u8>) -> Option<Seq<u8>>
    decreases d.len(),
    when true
    via getvar_lookup_dec
{
    if d.len() == 0 {
        None
    } else {
        let end = first_byte(d, 10);
        let raw = d.subrange(0, end);
        let line = if raw.len() > 0 && raw.last() == 13 {
            raw.drop_last()
        } else {
            raw
        };
        if crate::strutil::has_sub(line, var) && first_byte(line, 58) < line.len() {
            Some(trim_spec(line.skip(first_byte(line, 58) + 1)))
        } else if end == d.len() {
            None
        } else {
            getvar_lookup(d.skip(end + 1), var)
        }
    }
}

#[via_fn]
proof fn getvar_lookup_dec(d: Seq<u8>, var: Seq<u8>) {
    if d.len() > 0 {
        lemma_first_byte_le(d, 10);
    }
}

/// `first_byte` is bounded by the length.
proof fn lemma_first_byte_le(d: Seq<u8>, b: u8)
    ensures
        0 <= first_byte(d, b) <= d.len(),
        first_byte(d, b) < d.len() ==> d[first_byte(d, b)] == b,
        forall|j: int| 0 <= j < first_byte(d, b) ==> d[j] != b,
    decreases d.len(),
{
    if d.len() > 0 && d[0] != b {
        lemma_first_byte_le(d.drop_first(), b);
        assert forall|j: int| 0 <= j < first_byte(d, b) implies d[j] != b by {
            if j > 0 {
                assert(d.drop_first()[j - 1] == d[j]);
            }
        }
    }
}

/// `first_byte` is decided by the first matching index.
proof fn lemma_first_byte_at(d: Seq<u8>, b: u8, i: int)
    requires
        0 <= i <= d.len(),
        forall|j: int| 0 <= j < i ==> d[j] != b,
        i < d.len() ==> d[i] == b,
    ensures
        first_byte(d, b) == i,
    decreases d.len(),
{
    if d.len() > 0 && i > 0 {
        assert(forall|j: int| 0 <= j < i - 1 ==> d.drop_first()[j] == d[j + 1]);
        lemma_first_byte_at(d.drop_first(), b, i - 1);
    }
}

/// Index of the first occurrence of `b` in the window `[from, to)` of
/// `d`, or `to` when absent.
fn scan_byte(d: &[u8], from: usize, to: usize, b: u8) -> (r: usize)
    requires
        from <= to <= d@.len(),
    ensures
        r as int - from == first_byte(d@.subrange(from as int, to as int), b),
        from <= r <= to,
{
    let ghost w = d@.subrange(from as int, to as int);
    let mut i: usize = from;
    while i < to
        invariant
            from <= i <= to <= d@.len(),
            w == d@.subrange(from as int, to as int),
            forall|j: int| 0 <= j < i - from ==> w[j] != b,
        decreases to - i,
    {
        if d[i] == b {
            proof {
                assert(w[i - from] == d@[i as int]);
                lemma_first_byte_at(w, b, i - from);
            }
            return i;
        }
        proof {
            assert(w[i - from] == d@[i as int]);
        }
        i += 1;
    }
    proof {
        lemma_first_byte_at(w, b, to - from);
    }
    to
}

/// Trimming is the subrange between the first and last non-blank
/// bytes.
proof fn lemma_trim_front_skip(s: Seq<u8>, k: int)
    requires
        0 <= k <= s.len(),
        forall|j: int| 0 <= j < k ==> is_ws(#[trigger] s[j]),
        k < s.len() ==> !is_ws(s[k]),
    ensures
        trim_front(s) == s.skip(k),
    decreases s.len(),
{
    if k == 0 {
        assert(s.skip(0) =~= s);
    } else {
        assert(forall|j: int| 0 <= j < k - 1 ==> is_ws(#[trigger] s.drop_first()[j]));
        lemma_trim_front_skip(s.drop_first(), k - 1);
        assert(s.drop_first().skip(k - 1) =~= s.skip(k));
    }
}

proof fn lemma_trim_back_take(s: Seq<u8>, k: int)
    requires
        0 <= k <= s.len(),
        forall|j: int| k <= j < s.len() ==> is_ws(#[trigger] s[j]),
        k > 0 ==> !is_ws(s[k - 1]),
    ensures
        trim_back(s) == s.take(k),
    decreases s.len(),
{
    if k == s.len() {
        if s.len() == 0 || !is_ws(s.last()) {
            assert(s.take(k) =~= s);
        } else {
            assert(false);
        }
    } else {
        assert(s.len() > 0 && is_ws(s.last()));
        lemma_trim_back_take(s.drop_last(), k);
        assert(s.drop_last().take(k) =~= s.take(k));
    }
}

/// The trimmed window of `d` between `from` and `to`.
fn trim_window(d: &[u8], from: usize, to: usize) -> (r: (usize, usize))
    requires
        from <= to <= d@.len(),
    ensures
        from <= r.0 <= r.1 <= to,
        d@.subrange(r.0 as int, r.1 as int) == trim_spec(d@.subrange(from as int,
            to as int)),
{
    let ghost w = d@.subrange(from as int, to as int);
    let mut a: usize = from;
    while a < to && (d[a] == 32 || d[a] == 9 || d[a] == 10 || d[a] == 13)
        invariant
            from <= a <= to <= d@.len(),
            w == d@.subrange(from as int, to as int),
            forall|j: int| 0 <= j < a - from ==> is_ws(#[trigger] w[j]),
        decreases to - a,
    {
        proof {
            assert(w[a - from] == d@[a as int]);
        }
        a += 1;
    }
    proof {
        if a < to {
            assert(w[a - from] == d@[a as int]);
        }
        lemma_trim_front_skip(w, a - from);
    }
    let mut z: usize = to;
    while z > a && (d[z - 1] == 32 || d[z - 1] == 9 || d[z - 1] == 10 || d[z - 1] == 13)
        invariant
            from <= a <= z <= to <= d@.len(),
            w == d@.subrange(from as int, to as int),
            forall|j: int| z - from <= j < to - from ==> is_ws(#[trigger] w[j]),
        decreases z,
    {
        proof {
            assert(w[z - 1 - from] == d@[z - 1]);
        }
        z -= 1;
    }
    proof {
        let f = w.skip(a - from);
        assert(f.len() == to - a);
        assert forall|j: int| z - a <= j < f.len() implies is_ws(#[trigger] f[j]) by {
            assert(f[j] == w[j + (a - from)]);
        }
        if z > a {
            assert(f[z - 1 - a] == w[z - 1 - from]);
            assert(w[z - 1 - from] == d@[z - 1]);
            assert(!is_ws(f[z - a - 1]));
        }
        lemma_trim_back_take(f, z - a);
        assert(f.take(z - a) =~= d@.subrange(a as int, z as int));
    }
    (a, z)
}

impl FastbootManager {
    /// The value a captured `fastboot getvar` transcript reports for
    /// `var`: the text after the first colon of the first line
    /// containing both `var` and a colon, with ASCII whitespace
    /// trimmed; `unknown` when no line matches or the value is not
    /// UTF-8.
    #[verifier::rlimit(100)]
    pub fn parse_var_output(&self, var: &str, output: &str) -> (r: String)
        ensures
            ({
                let looked = getvar_lookup(output.spec_bytes(), var.spec_bytes());
                &&& ((looked matches Some(v) && vstd::utf8::valid_utf8(v))
                    ==> vstd::utf8::encode_utf8(r@) == looked.unwrap())
                &&& (looked is None ==> r@ == "unknown"@)
            }),
    {
        let d = output.as_bytes();
        let v = var.as_bytes();
        let n = d.len();
        let mut start: usize = 0;
        let mut done = n == 0;
        proof {
            assert(d@.skip(0) =~= d@);
        }
        while !done
            invariant
                n == d@.len(),
                start <= n,
                v@ == var.spec_bytes(),
                d@ == output.spec_bytes(),
                !done ==> getvar_lookup(d@, v@) == getvar_lookup(d@.skip(start as int), v@),
                done ==> getvar_lookup(d@, v@) is None,
            decreases n - start + (if done { 0int } else { 1int }),
        {
            let ghost tail = d@.skip(start as int);
            if n == 0 {
                done = true;
            } else {
                let end = scan_byte(d, start, n, 10);
                proof {
                    assert(tail.subrange(0, end - start) =~= d@.subrange(start as int,
                        end as int));
                    assert(first_byte(tail, 10) == end - start);
                }
                let mut line_end = end;
                if line_end > start && d[line_end - 1] == 13 {
                    line_end -= 1;
                }
                let ghost raw = d@.subrange(start as int, end as int);
                let ghost line = if raw.len() > 0 && raw.last() == 13 {
                    raw.drop_last()
                } else {
                    raw
                };
                proof {
                    assert(line =~= d@.subrange(start as int, line_end as int));
                }
                let line_slice = vstd::slice::slice_subrange(d, start, line_end);
                let colon = scan_byte(d, start, line_end, 58);
                proof {
                    assert(line_slice@ =~= line);
                    assert(first_byte(line, 58) == colon - start);
                }
                if crate::strutil::contains_sub(line_slice, v) && colon < line_end {
                    let (a, z) = trim_window(d, colon + 1, line_end);
                    proof {
                        assert(d@.subrange(colon as int + 1, line_end as int) =~= line.skip(
                            first_byte(line, 58) + 1));
                        assert(getvar_lookup(tail, v@) == Some(trim_spec(line.skip(
                            first_byte(line, 58) + 1))));
                    }
                    let value = vstd::slice::slice_subrange(d, a, z);
                    match crate::cpio::bytes_to_string(value) {
                        Some(out) => {
                            return out;
                        }
                        None => {
                            return unknown_string();
                        }
                    }
                } else if end == n {
                    proof {
                        assert(getvar_lookup(tail, v@) is None);
                    }
                    done = true;
                } else {
                    proof {
                        assert(tail.skip(end - start + 1) =~= d@.skip(end + 1));
                        assert(getvar_lookup(tail, v@) == getvar_lookup(d@.skip(end + 1),
                            v@));
                    }
                    start = end + 1;
                }
            }
        }
        unknown_string()
    }

    /// The value a captured `adb shell getprop` transcript reports:
    /// the output with ASCII whitespace trimmed, or `PropertyNotFound`
    /// when nothing is left.
    pub fn parse_adb_var_output(&self, prop: &str, output: &str) -> (r: Result<
        String,
        FlashError,
    >)
        ensures
            r is Err <==> trim_spec(output.spec_bytes()).len() == 0 || !vstd::utf8::valid_utf8(
                trim_spec(output.spec_bytes())),
            r matches Ok(v) ==> vstd::utf8::encode_utf8(v@) == trim_spec(
                output.spec_bytes()),
            r matches Err(e) ==> e is PropertyNotFound,
    {
        let d = output.as_bytes();
        let (a, z) = trim_window(d, 0, d.len());
        proof {
            assert(d@.subrange(0, d@.len() as int) =~= d@);
        }
        if a == z {
            return Err(FlashError::PropertyNotFound(prop.to_owned()));
        }
        let value = vstd::slice::slice_subrange(d, a, z);
        match crate::cpio::bytes_to_string(value) {
            Some(out) => Ok(out),
            None => Err(FlashError::PropertyNotFound(prop.to_owned())),
        }
    }
}

/// The fallback value as an owned string.
fn unknown_string() -> (r: String)
    ensures
        r@ == "unknown"@,
{
    "unknown".to_owned()
}

} // verus!
