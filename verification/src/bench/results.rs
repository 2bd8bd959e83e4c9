//! Host fingerprints: what the files that describe a Linux host say of it.
use crate::scan;
use crate::strings;
use crate::strings::{parse_u64, trim};
use crate::text;
use crate::text::utf8_str;
use vstd::prelude::*;
use vstd::slice::slice_subrange;
use vstd::string::*;
use vstd::utf8::*;

verus! {

/// Host fingerprint recorded into every result file.
#[derive(Debug, Clone, PartialEq, Eq)]
pub struct HostInfo {
    /// CPU brand string.
    pub cpu: String,
    /// Logical cores.
    pub cores: u32,
    /// Physical memory, GiB.
    pub mem_gb: u64,
    /// OS name + version.
    pub os: String,
    /// rustc version used for the build.
    pub rustc: String,
}

/// The first place at or after `i` that holds `c`, or the end.
pub open spec fn until(b: Seq<u8>, c: u8, i: int) -> int
    decreases b.len() - i,
{
    if !(0 <= i < b.len()) || b[i] == c {
        i
    } else {
        until(b, c, i + 1)
    }
}

/// Where the line that starts at `i` ends, given that the next line feed is
/// at `end`: in front of it, and of the carriage return before it.
pub open spec fn line_end(b: Seq<u8>, i: int, end: int) -> int {
    if i < end < b.len() && b[end - 1] == 0x0d {
        end - 1
    } else {
        end
    }
}

/// The first line, from the line at `i` on, that starts with `prefix`: where
/// it starts and where it ends.
pub open spec fn line_from(b: Seq<u8>, prefix: Seq<u8>, i: int) -> Option<(int, int)>
    decreases b.len() - i,
{
    if !(0 <= i <= b.len()) {
        None
    } else {
        let end = until(b, 0x0a, i);
        if scan::occurs_at(b.subrange(i, line_end(b, i, end)), prefix, 0) {
            Some((i, line_end(b, i, end)))
        } else if i <= end < b.len() {
            line_from(b, prefix, end + 1)
        } else {
            None
        }
    }
}

/// The first place at or after `i` that holds `c`, or the end.
fn find_byte(b: &[u8], c: u8, i: usize) -> (r: usize)
    requires
        i <= b@.len(),
    ensures
        r == until(b@, c, i as int),
        i <= r <= b@.len(),
{
    let mut j: usize = i;
    while j < b.len() && b[j] != c
        invariant
            i <= j <= b@.len(),
            until(b@, c, i as int) == until(b@, c, j as int),
        decreases b@.len() - j,
    {
        j += 1;
    }
    j
}

/// The first line that starts with `prefix`.
fn find_line<'a>(b: &'a [u8], prefix: &[u8]) -> (r: Option<&'a [u8]>)
    ensures
        match r {
            Some(line) => match line_from(b@, prefix@, 0) {
                Some(x) => 0 <= x.0 <= x.1 <= b@.len() && line@ == b@.subrange(x.0, x.1)
                    && scan::occurs_at(line@, prefix@, 0),
                None => false,
            },
            None => line_from(b@, prefix@, 0) is None,
        },
{
    let mut i: usize = 0;
    loop
        invariant
            i <= b@.len(),
            line_from(b@, prefix@, 0) == line_from(b@, prefix@, i as int),
        decreases b@.len() - i,
    {
        let end: usize = find_byte(b, 0x0a, i);
        let stop: usize = if i < end && end < b.len() && b[end - 1] == 0x0d {
            end - 1
        } else {
            end
        };
        let line: &'a [u8] = slice_subrange(b, i, stop);
        if line.len() >= prefix.len() && text::same_bytes(
            slice_subrange(line, 0, prefix.len()),
            prefix,
        ) {
            return Some(line);
        }
        if end >= b.len() {
            return None;
        }
        i = end + 1;
    }
}

/// The line of `b` that starts with `prefix`, if there is one.
pub open spec fn line_of(b: Seq<u8>, prefix: Seq<u8>) -> Option<Seq<u8>> {
    match line_from(b, prefix, 0) {
        Some(x) => Some(b.subrange(x.0, x.1)),
        None => None,
    }
}

/// What stands in a line between its first colon and the next.
pub open spec fn after_colon(line: Seq<u8>) -> Option<Seq<u8>> {
    let i = until(line, 0x3a, 0);
    if i < line.len() {
        Some(line.subrange(i + 1, until(line, 0x3a, i + 1)))
    } else {
        None
    }
}

/// The processor that `cpuinfo` names: what stands behind the colon of its
/// first `model name` line.
pub open spec fn model_bytes(cpuinfo: Seq<u8>) -> Option<Seq<u8>> {
    match line_of(cpuinfo, crate::codec::lit("model name")) {
        Some(line) => after_colon(line),
        None => None,
    }
}

/// The processor that the text of `/proc/cpuinfo` names.
pub fn cpu_model(cpuinfo: &str) -> (r: Option<String>)
    ensures
        match r {
            Some(s) => exists|t: Seq<char>| #[trigger]
                model_bytes(encode_utf8(cpuinfo@)) == Some(encode_utf8(t)) && s@
                    == strings::trimmed(t),
            None => match model_bytes(encode_utf8(cpuinfo@)) {
                Some(b) => !valid_utf8(b),
                None => true,
            },
        },
{
    match find_line(cpuinfo.as_bytes(), "model name".as_bytes()) {
        None => None,
        Some(line) => {
            let i: usize = find_byte(line, 0x3a, 0);
            if i >= line.len() {
                return None;
            }
            let j: usize = find_byte(line, 0x3a, i + 1);
            match utf8_str(slice_subrange(line, i + 1, j)) {
                Some(t) => {
                    assert(model_bytes(encode_utf8(cpuinfo@)) == Some(encode_utf8(t@)));
                    Some(trim(t).to_owned())
                },
                None => None,
            }
        },
    }
}

/// The end of the white space, or of the run without any, that starts at `i`.
pub open spec fn run_end(s: Seq<char>, white: bool, i: int) -> int
    decreases s.len() - i,
{
    if !(0 <= i < s.len()) || strings::is_white(s[i]) != white {
        i
    } else {
        run_end(s, white, i + 1)
    }
}

/// The second word of a line that starts with one.
pub open spec fn second_word(line: Seq<char>) -> Seq<char> {
    let i = run_end(line, true, run_end(line, false, 0));
    line.subrange(i, run_end(line, false, i))
}

/// The end of the white space, or of the run without any, that starts at `i`.
fn find_run_end(s: &str, white: bool, i: usize) -> (r: usize)
    requires
        i <= s@.len(),
    ensures
        r == run_end(s@, white, i as int),
        i <= r <= s@.len(),
{
    let n: usize = s.unicode_len();
    let mut j: usize = i;
    while j < n && strings::white(s.get_char(j)) == white
        invariant
            i <= j <= n,
            n == s@.len(),
            run_end(s@, white, i as int) == run_end(s@, white, j as int),
        decreases n - j,
    {
        j += 1;
    }
    j
}

/// The memory that the text of `/proc/meminfo` gives, in GiB: the second word
/// of its `MemTotal` line counts KiB.
pub fn mem_total_gb(meminfo: &str) -> (r: Option<u64>)
    ensures
        r == match line_of(encode_utf8(meminfo@), crate::codec::lit("MemTotal")) {
            Some(line) if valid_utf8(line) => match strings::number_of(
                encode_utf8(second_word(decode_utf8(line))),
            ) {
                Some(kb) => Some(kb / 1_048_576),
                None => None,
            },
            _ => None,
        },
{
    let line: &[u8] = match find_line(meminfo.as_bytes(), "MemTotal".as_bytes()) {
        Some(line) => line,
        None => {
            return None;
        },
    };
    let t: &str = match utf8_str(line) {
        Some(t) => t,
        None => {
            return None;
        },
    };
    proof {
        encode_utf8_valid_utf8(t@);
        encode_utf8_decode_utf8(t@);
    }
    let i: usize = find_run_end(t, true, find_run_end(t, false, 0));
    let j: usize = find_run_end(t, false, i);
    match parse_u64(t.substring_char(i, j)) {
        Some(kb) => Some(kb / 1_048_576),
        None => None,
    }
}

/// A text without the quotes at its ends.
pub open spec fn unquoted(b: Seq<u8>) -> Seq<u8>
    decreases b.len(),
{
    if b.len() > 0 && b[0] == 0x22 {
        unquoted(b.subrange(1, b.len() as int))
    } else if b.len() > 0 && b[b.len() - 1] == 0x22 {
        unquoted(b.subrange(0, b.len() - 1))
    } else {
        b
    }
}

/// A text without the prefix in front, however often it is there.
pub open spec fn unprefixed(b: Seq<u8>, prefix: Seq<u8>) -> Seq<u8>
    decreases b.len(),
{
    if prefix.len() > 0 && scan::occurs_at(b, prefix, 0) {
        unprefixed(b.skip(prefix.len() as int), prefix)
    } else {
        b
    }
}

/// The name that `os-release` gives the system.
pub open spec fn pretty_bytes(os_release: Seq<u8>) -> Option<Seq<u8>> {
    match line_of(os_release, crate::codec::lit("PRETTY_NAME=")) {
        Some(line) => Some(unquoted(unprefixed(line, crate::codec::lit("PRETTY_NAME=")))),
        None => None,
    }
}

/// The name that the text of `/etc/os-release` gives the system.
pub fn pretty_name(os_release: &str) -> (r: Option<String>)
    ensures
        match r {
            Some(s) => pretty_bytes(encode_utf8(os_release@)) == Some(encode_utf8(s@)),
            None => match pretty_bytes(encode_utf8(os_release@)) {
                Some(b) => !valid_utf8(b),
                None => true,
            },
        },
{
    let prefix: &[u8] = "PRETTY_NAME=".as_bytes();
    proof {
        reveal_strlit("PRETTY_NAME=");
        is_ascii_chars_encode_utf8("PRETTY_NAME="@);
    }
    match find_line(os_release.as_bytes(), prefix) {
        None => None,
        Some(line) => {
            let mut i: usize = 0;
            let mut j: usize = line.len();
            let ghost bare = unprefixed(line@, prefix@);
            assert(line@.skip(0) =~= line@);
            while line.len() - i >= prefix.len() && text::same_bytes(
                slice_subrange(line, i, i + prefix.len()),
                prefix,
            )
                invariant
                    i <= line@.len(),
                    prefix@.len() == 12,
                    bare == unprefixed(line@.skip(i as int), prefix@),
                decreases line@.len() - i,
            {
                let ghost rest = line@.skip(i as int);
                assert(rest.subrange(0, 12) =~= line@.subrange(i as int, i + 12));
                assert(rest.skip(12) =~= line@.skip(i + 12));
                i += prefix.len();
            }
            assert(line@.skip(i as int).len() >= 12 ==> line@.skip(i as int).subrange(0, 12)
                =~= line@.subrange(i as int, i + 12));
            assert(line@.skip(i as int) =~= line@.subrange(i as int, line@.len() as int));
            let ghost goal = unquoted(bare);
            while i < j && (line[i] == 0x22 || line[j - 1] == 0x22)
                invariant
                    i <= j <= line@.len(),
                    goal == unquoted(line@.subrange(i as int, j as int)),
                decreases j - i,
            {
                let ghost w = line@.subrange(i as int, j as int);
                if line[i] == 0x22 {
                    i += 1;
                    assert(w.subrange(1, w.len() as int) =~= line@.subrange(i as int, j as int));
                } else {
                    j -= 1;
                    assert(w.subrange(0, w.len() - 1) =~= line@.subrange(i as int, j as int));
                }
            }
            match utf8_str(slice_subrange(line, i, j)) {
                Some(s) => Some(s.to_owned()),
                None => None,
            }
        },
    }
}

} // verus!
