//! Matchers that delimit network address syntax: IPv4 and IPv6 addresses
//! and socket addresses.  These only find the extent of an address at the
//! start of the input; they do not validate field ranges.

use vstd::prelude::*;

use crate::scanner::lang::radix_run_end;

verus! {

/// The extent of a dotted quad at offset `i`: four runs of decimal digits
/// separated by dots.
pub open spec fn spec_ipv4_at(s: Seq<u8>, i: int) -> Option<int>
    recommends
        0 <= i,
{
    let a = radix_run_end(s, i, 10);
    if a == i || !(a < s.len() && s[a] == 0x2Eu8) {
        None
    } else {
        let b = radix_run_end(s, a + 1, 10);
        if b == a + 1 || !(b < s.len() && s[b] == 0x2Eu8) {
            None
        } else {
            let c = radix_run_end(s, b + 1, 10);
            if c == b + 1 || !(c < s.len() && s[c] == 0x2Eu8) {
                None
            } else {
                let d = radix_run_end(s, c + 1, 10);
                if d == c + 1 {
                    None
                } else {
                    Some(d)
                }
            }
        }
    }
}

/// The extent of a `:` followed by a run of hex digits at offset `i`.
pub open spec fn spec_colon_hex(s: Seq<u8>, i: int) -> Option<int>
    recommends
        0 <= i,
{
    if i < s.len() && s[i] == 0x3Au8 && radix_run_end(s, i + 1, 16) > i + 1 {
        Some(radix_run_end(s, i + 1, 16))
    } else {
        None
    }
}

/// Whether a double colon stands at offset `i`.
pub open spec fn spec_dbl_colon(s: Seq<u8>, i: int) -> bool {
    i + 1 < s.len() && s[i] == 0x3Au8 && s[i + 1] == 0x3Au8
}

/// The extent of a `:` followed by a dotted quad at offset `i`.
pub open spec fn spec_colon_ipv4(s: Seq<u8>, i: int) -> Option<int>
    recommends
        0 <= i,
{
    if i < s.len() && s[i] == 0x3Au8 {
        spec_ipv4_at(s, i + 1)
    } else {
        None
    }
}

/// Dotted quads end at or after where they start, within the input.
pub proof fn lemma_ipv4_at_bounds(s: Seq<u8>, i: int)
    requires
        0 <= i <= s.len(),
    ensures
        spec_ipv4_at(s, i) matches Some(n) ==> i < n <= s.len(),
{
    crate::scanner::lang::lemma_radix_run_end_bounds(s, i, 10);
    let a = radix_run_end(s, i, 10);
    if a != i && a < s.len() && s[a] == 0x2Eu8 {
        crate::scanner::lang::lemma_radix_run_end_bounds(s, a + 1, 10);
        let b = radix_run_end(s, a + 1, 10);
        if b != a + 1 && b < s.len() && s[b] == 0x2Eu8 {
            crate::scanner::lang::lemma_radix_run_end_bounds(s, b + 1, 10);
            let c = radix_run_end(s, b + 1, 10);
            if c != b + 1 && c < s.len() && s[c] == 0x2Eu8 {
                crate::scanner::lang::lemma_radix_run_end_bounds(s, c + 1, 10);
            }
        }
    }
}

/// The trailing IPv6 groups after at least one ordinary group, from offset
/// `i`: a `:` and a dotted quad end the address, a double colon moves into
/// the abbreviated form, further `:` groups continue, and anything else
/// ends the address at `i`.
pub open spec fn spec_ipv6_one_plus(s: Seq<u8>, i: int) -> int
    recommends
        0 <= i <= s.len(),
    decreases s.len() - i, 2int,
{
    match spec_colon_ipv4(s, i) {
        Some(n) => n,
        None => {
            if spec_dbl_colon(s, i) {
                spec_ipv6_dbl_colon(s, i + 2)
            } else {
                match spec_colon_hex(s, i) {
                    Some(n) => if i < n <= s.len() {
                        spec_ipv6_one_plus(s, n)
                    } else {
                        i
                    },
                    None => i,
                }
            }
        },
    }
}

/// The groups allowed right after a double colon, from offset `i`: a
/// dotted quad, a hex group followed by more groups, or nothing.
pub open spec fn spec_ipv6_dbl_colon(s: Seq<u8>, i: int) -> int
    recommends
        0 <= i <= s.len(),
    decreases s.len() - i, 1int,
{
    match spec_ipv4_at(s, i) {
        Some(n) => n,
        None => {
            let h = radix_run_end(s, i, 16);
            if h > i && h <= s.len() {
                spec_ipv6_after_dbl(s, h)
            } else {
                i
            }
        },
    }
}

/// The trailing groups after the double colon's first hex group, from
/// offset `i`.
pub open spec fn spec_ipv6_after_dbl(s: Seq<u8>, i: int) -> int
    recommends
        0 <= i <= s.len(),
    decreases s.len() - i, 0int,
{
    match spec_colon_ipv4(s, i) {
        Some(n) => n,
        None => match spec_colon_hex(s, i) {
            Some(n) => if i < n <= s.len() {
                spec_ipv6_after_dbl(s, n)
            } else {
                i
            },
            None => i,
        },
    }
}

/// The extent of an IPv6 address at the start of `s`: a leading hex group
/// followed by further groups, or the abbreviated form starting with a
/// double colon.
pub open spec fn spec_match_ipv6(s: Seq<u8>) -> Option<int> {
    let h = radix_run_end(s, 0, 16);
    if h > 0 {
        match spec_colon_hex(s, h) {
            Some(n) => if h < n <= s.len() {
                Some(spec_ipv6_one_plus(s, n))
            } else {
                None
            },
            None => None,
        }
    } else if spec_dbl_colon(s, 0) {
        Some(spec_ipv6_dbl_colon(s, 2))
    } else {
        None
    }
}

/// The extent of a dotted quad at the start of `s`.
pub open spec fn spec_match_ipv4(s: Seq<u8>) -> Option<int> {
    spec_ipv4_at(s, 0)
}

/// Find the extent of a dotted quad at offset `i`.
fn ipv4_at(s: &[u8], i: usize) -> (r: Option<usize>)
    requires
        i <= s@.len(),
    ensures
        r matches Some(n) ==> Some(n as int) == spec_ipv4_at(s@, i as int) && i < n <= s@.len(),
        r is None ==> spec_ipv4_at(s@, i as int) is None,
{
    proof {
        lemma_ipv4_at_bounds(s@, i as int);
    }
    let a = crate::scanner::lang::radix_run(s, i, 10);
    if a == i || !(a < s.len() && s[a] == 0x2E) {
        return None;
    }
    let b = crate::scanner::lang::radix_run(s, a + 1, 10);
    if b == a + 1 || !(b < s.len() && s[b] == 0x2E) {
        return None;
    }
    let c = crate::scanner::lang::radix_run(s, b + 1, 10);
    if c == b + 1 || !(c < s.len() && s[c] == 0x2E) {
        return None;
    }
    let d = crate::scanner::lang::radix_run(s, c + 1, 10);
    if d == c + 1 {
        return None;
    }
    Some(d)
}

/// The extent of an IPv4 address at the start of `s`, if one starts there.
pub fn match_ipv4(s: &[u8]) -> (r: Option<usize>)
    ensures
        r matches Some(n) ==> Some(n as int) == spec_match_ipv4(s@) && 0 < n <= s@.len(),
        r is None ==> spec_match_ipv4(s@) is None,
{
    ipv4_at(s, 0)
}

/// Find the extent of a `:` followed by a hex group at offset `i`.
fn colon_hex(s: &[u8], i: usize) -> (r: Option<usize>)
    requires
        i <= s@.len(),
    ensures
        r matches Some(n) ==> Some(n as int) == spec_colon_hex(s@, i as int) && i + 1 < n
            <= s@.len(),
        r is None ==> spec_colon_hex(s@, i as int) is None,
{
    if i < s.len() && s[i] == 0x3A {
        let h = crate::scanner::lang::radix_run(s, i + 1, 16);
        if h > i + 1 {
            return Some(h);
        }
    }
    None
}

/// The extent of an IPv6 address at the start of `s`, if one starts there.
pub fn match_ipv6(s: &[u8]) -> (r: Option<usize>)
    ensures
        r matches Some(n) ==> Some(n as int) == spec_match_ipv6(s@) && n <= s@.len(),
        r is None ==> spec_match_ipv6(s@) is None,
{
    let h = crate::scanner::lang::radix_run(s, 0, 16);
    if h > 0 {
        match colon_hex(s, h) {
            Some(n) => Some(ipv6_one_plus(s, n)),
            None => None,
        }
    } else if s.len() >= 2 && s[0] == 0x3A && s[1] == 0x3A {
        Some(ipv6_dbl_colon(s, 2))
    } else {
        None
    }
}

/// Walk the trailing groups of an ordinary IPv6 address from offset `i`.
fn ipv6_one_plus(s: &[u8], i: usize) -> (r: usize)
    requires
        i <= s@.len(),
    ensures
        r as int == spec_ipv6_one_plus(s@, i as int),
        r <= s@.len(),
    decreases s@.len() - i, 2int,
{
    match ipv4_at_colon(s, i) {
        Some(n) => n,
        None => {
            if s.len() - i > 1 && s[i] == 0x3A && s[i + 1] == 0x3A {
                ipv6_dbl_colon(s, i + 2)
            } else {
                match colon_hex(s, i) {
                    Some(n) => ipv6_one_plus(s, n),
                    None => i,
                }
            }
        },
    }
}

/// Walk the groups allowed right after a double colon from offset `i`.
fn ipv6_dbl_colon(s: &[u8], i: usize) -> (r: usize)
    requires
        i <= s@.len(),
    ensures
        r as int == spec_ipv6_dbl_colon(s@, i as int),
        r <= s@.len(),
    decreases s@.len() - i, 1int,
{
    match ipv4_at(s, i) {
        Some(n) => n,
        None => {
            let h = crate::scanner::lang::radix_run(s, i, 16);
            if h > i {
                ipv6_after_dbl(s, h)
            } else {
                i
            }
        },
    }
}

/// Walk the trailing groups of an abbreviated IPv6 address from offset `i`.
fn ipv6_after_dbl(s: &[u8], i: usize) -> (r: usize)
    requires
        i <= s@.len(),
    ensures
        r as int == spec_ipv6_after_dbl(s@, i as int),
        r <= s@.len(),
    decreases s@.len() - i, 0int,
{
    match ipv4_at_colon(s, i) {
        Some(n) => n,
        None => match colon_hex(s, i) {
            Some(n) => ipv6_after_dbl(s, n),
            None => i,
        },
    }
}

/// Find the extent of a `:` followed by a dotted quad at offset `i`.
fn ipv4_at_colon(s: &[u8], i: usize) -> (r: Option<usize>)
    requires
        i <= s@.len(),
    ensures
        r matches Some(n) ==> Some(n as int) == spec_colon_ipv4(s@, i as int) && i < n
            <= s@.len(),
        r is None ==> spec_colon_ipv4(s@, i as int) is None,
{
    if i < s.len() && s[i] == 0x3A {
        ipv4_at(s, i + 1)
    } else {
        None
    }
}

/// The extent of an IPv4 socket address at the start of `s`: a dotted quad,
/// a colon, and a run of decimal digits.
pub open spec fn spec_match_ipv4_sock(s: Seq<u8>) -> Option<int> {
    match spec_ipv4_at(s, 0) {
        None => None,
        Some(off) => {
            if off < s.len() && s[off] == 0x3Au8 {
                let e = radix_run_end(s, off + 1, 10);
                if e > off + 1 {
                    Some(e)
                } else {
                    None
                }
            } else {
                None
            }
        },
    }
}

/// The extent of an IPv6 socket address at the start of `s`: a bracketed
/// IPv6 address, a colon, and a run of decimal digits.
pub open spec fn spec_match_ipv6_sock(s: Seq<u8>) -> Option<int> {
    if !(s.len() >= 1 && s[0] == 0x5Bu8) {
        None
    } else {
        match spec_match_ipv6(s.skip(1)) {
            None => None,
            Some(v6) => {
                let off = v6 + 1;
                if off + 1 < s.len() && s[off] == 0x5Du8 && s[off + 1] == 0x3Au8 {
                    let e = radix_run_end(s, off + 2, 10);
                    if e > off + 2 {
                        Some(e)
                    } else {
                        None
                    }
                } else {
                    None
                }
            },
        }
    }
}

/// The extent of a socket address at the start of `s`: the IPv4 form, or
/// else the bracketed IPv6 form.
pub open spec fn spec_match_sock_addr(s: Seq<u8>) -> Option<int> {
    match spec_match_ipv4_sock(s) {
        Some(n) => Some(n),
        None => spec_match_ipv6_sock(s),
    }
}

/// The extent of an IPv4 socket address at the start of `s`, if one starts
/// there.
pub fn match_ipv4_sock(s: &[u8]) -> (r: Option<usize>)
    ensures
        r matches Some(n) ==> Some(n as int) == spec_match_ipv4_sock(s@) && 0 < n <= s@.len(),
        r is None ==> spec_match_ipv4_sock(s@) is None,
{
    let off = match ipv4_at(s, 0) {
        Some(off) => off,
        None => {
            return None;
        },
    };
    if off < s.len() && s[off] == 0x3A {
        let e = crate::scanner::lang::radix_run(s, off + 1, 10);
        if e > off + 1 {
            return Some(e);
        }
    }
    None
}

/// The extent of an IPv6 socket address at the start of `s`, if one starts
/// there.
pub fn match_ipv6_sock(s: &[u8]) -> (r: Option<usize>)
    ensures
        r matches Some(n) ==> Some(n as int) == spec_match_ipv6_sock(s@) && 0 < n <= s@.len(),
        r is None ==> spec_match_ipv6_sock(s@) is None,
{
    if !(s.len() >= 1 && s[0] == 0x5B) {
        return None;
    }
    proof {
        assert(s@.subrange(1, s@.len() as int) =~= s@.skip(1));
    }
    let v6 = match match_ipv6(&s[1..s.len()]) {
        Some(v6) => v6,
        None => {
            return None;
        },
    };
    let off = v6 + 1;
    if s.len() - off > 1 && s[off] == 0x5D && s[off + 1] == 0x3A {
        let e = crate::scanner::lang::radix_run(s, off + 2, 10);
        if e > off + 2 {
            return Some(e);
        }
    }
    None
}

/// The extent of a socket address at the start of `s`, if one starts there.
pub fn match_sock_addr(s: &[u8]) -> (r: Option<usize>)
    ensures
        r matches Some(n) ==> Some(n as int) == spec_match_sock_addr(s@) && 0 < n <= s@.len(),
        r is None ==> spec_match_sock_addr(s@) is None,
{
    match match_ipv4_sock(s) {
        Some(n) => Some(n),
        None => match_ipv6_sock(s),
    }
}

} // verus!
