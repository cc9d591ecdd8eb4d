//! Service configuration and the process-status parser behind the metrics
//! endpoint. Reading the environment and the status file is the caller's
//! business; the parsing is done here.

use vstd::prelude::*;

use crate::text::{
    find_char, find_char_from, find_space, lemma_find_char, parse_u64, parse_u64_ok,
    parse_u64_val, skip_spaces,
};

verus! {

/// Service configuration: listening port, store location, and the external
/// base URL that tracking links are built against.
pub struct Config {
    pub port: u16,
    pub database_url: String,
    pub base_url: String,
}

/// The port used when none is configured.
pub fn default_port() -> (r: u16)
    ensures
        r == 3000,
{
    3000
}

/// The store location used when none is configured.
pub fn default_database_url() -> (r: String)
    ensures
        r@ == "sqlite:data/tracking.db"@,
{
    "sqlite:data/tracking.db".to_owned()
}

/// The base URL used when none is configured.
pub fn default_base_url() -> (r: String)
    ensures
        r@ == "http://localhost:3000"@,
{
    "http://localhost:3000".to_owned()
}

impl Default for Config {
    /// The configuration used when the environment provides none.
    fn default() -> (c: Config)
        ensures
            c.port == 3000,
            c.database_url@ == "sqlite:data/tracking.db"@,
            c.base_url@ == "http://localhost:3000"@,
    {
        Config {
            port: default_port(),
            database_url: default_database_url(),
            base_url: default_base_url(),
        }
    }
}

/// The line begins with the resident-set-size field name.
pub open spec fn starts_with_vmrss(l: Seq<char>) -> bool {
    l.len() >= 6 && l.subrange(0, 6) == "VmRSS:"@
}

/// The kilobyte count carried by a resident-set-size status line: the
/// second whitespace-separated field, parsed as an unsigned decimal.
/// Absent when the line is not that field, has no second token, or the
/// token does not parse.
pub open spec fn vmrss_line_val(l: Seq<char>) -> Option<int> {
    if !starts_with_vmrss(l) {
        None
    } else {
        let a = find_space(l, 0);
        let b = skip_spaces(l, a);
        let c = find_space(l, b);
        let tok = l.subrange(b, c);
        if b >= l.len() {
            None
        } else if parse_u64_ok(tok) {
            Some(parse_u64_val(tok))
        } else {
            None
        }
    }
}

/// The resident set size in bytes read from a process status text, scanning
/// newline-separated lines from position `i`: the first line carrying a
/// parsable resident-set-size field wins, its kilobyte count scaled to
/// bytes; zero when no line carries one or the byte count would not fit.
pub open spec fn vmrss_bytes_from(s: Seq<char>, i: int) -> int
    decreases s.len() - i,
    via vmrss_bytes_from_decreases
{
    if i < 0 || i >= s.len() {
        0
    } else {
        let e = find_char(s, '\n', i);
        let l = s.subrange(i, e);
        match vmrss_line_val(l) {
            Some(kb) => if kb * 1024 <= u64::MAX {
                kb * 1024
            } else {
                0
            },
            None => if e >= s.len() {
                0
            } else {
                vmrss_bytes_from(s, e + 1)
            },
        }
    }
}

#[via_fn]
proof fn vmrss_bytes_from_decreases(s: Seq<char>, i: int) {
    if 0 <= i < s.len() {
        lemma_find_char(s, '\n', i);
    }
}

/// The resident set size in bytes read from a whole process status text.
pub open spec fn vmrss_bytes(s: Seq<char>) -> int {
    vmrss_bytes_from(s, 0)
}

/// The kilobyte count of one status line, when it is a parsable
/// resident-set-size line.
fn vmrss_line_kb(l: &str) -> (r: Option<u64>)
    ensures
        match r {
            Some(v) => vmrss_line_val(l@) == Some(v as int),
            None => vmrss_line_val(l@) is None,
        },
{
    let len = l.unicode_len();
    proof {
        reveal_strlit("VmRSS:");
    }
    if len < 6 || l.get_char(0) != 'V' || l.get_char(1) != 'm' || l.get_char(2) != 'R'
        || l.get_char(3) != 'S' || l.get_char(4) != 'S' || l.get_char(5) != ':' {
        proof {
            if l@.len() >= 6 && l@.subrange(0, 6) == "VmRSS:"@ {
                assert(l@[0] == "VmRSS:"@[0]);
                assert(l@[1] == "VmRSS:"@[1]);
                assert(l@[2] == "VmRSS:"@[2]);
                assert(l@[3] == "VmRSS:"@[3]);
                assert(l@[4] == "VmRSS:"@[4]);
                assert(l@[5] == "VmRSS:"@[5]);
            }
        }
        return None;
    }
    proof {
        assert(l@.subrange(0, 6) =~= "VmRSS:"@);
    }
    let a = crate::text::find_space_from(l, 0);
    let b = crate::text::skip_spaces_from(l, a);
    if b >= len {
        return None;
    }
    let c = crate::text::find_space_from(l, b);
    let tok = l.substring_char(b, c);
    proof {
        assert(tok@ =~= l@.subrange(b as int, c as int));
    }
    parse_u64(tok)
}

/// Parse the resident set size, in bytes, out of a process status text of
/// newline-separated `Field: value` lines, as the metrics endpoint reports
/// it. The caller reads the status text; this turns it into the number.
pub fn get_memory_usage(status: &str) -> (r: u64)
    ensures
        r as int == vmrss_bytes(status@),
{
    let len = status.unicode_len();
    let mut i: usize = 0;
    while i < len
        invariant
            i <= len + 1,
            len == status@.len(),
            vmrss_bytes(status@) == vmrss_bytes_from(status@, i as int),
        decreases len - i,
    {
        let e = find_char_from(status, '\n', i);
        let line = status.substring_char(i, e);
        proof {
            assert(line@ =~= status@.subrange(i as int, e as int));
        }
        match vmrss_line_kb(line) {
            Some(kb) => {
                if kb <= u64::MAX / 1024 {
                    proof {
                        assert(kb * 1024 <= u64::MAX) by (nonlinear_arith)
                            requires
                                kb <= u64::MAX / 1024,
                        ;
                    }
                    return kb * 1024;
                } else {
                    proof {
                        assert(!((kb as int) * 1024 <= u64::MAX)) by (nonlinear_arith)
                            requires
                                kb > u64::MAX / 1024,
                        ;
                    }
                    return 0;
                }
            },
            None => {
                if e >= len {
                    return 0;
                }
                i = e + 1;
            },
        }
    }
    0
}

} // verus!
