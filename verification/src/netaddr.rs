//! Classification of MAC-resolution targets and host extraction from
//! the configured server address.
//!
//! Resolving the local hardware address only makes sense for a target
//! reached through a real interface, so a loopback target — the name
//! `localhost`, an IPv4 address in the loopback range, or the IPv6
//! loopback — is refused outright, before any external lookup. The
//! accepted address formats are dotted-quad IPv4 (decimal octets,
//! leading zeros allowed) and IPv6 loopback as `::1` or as the full
//! eight-group form.

use vstd::prelude::*;

use crate::textutil::{spec_split, spec_trim, split_char, str_eq, trim_str};

verus! {

/// Why the hardware address could not be resolved.
#[derive(Clone, Copy, Debug, PartialEq, Eq, Structural)]
pub enum MacError {
    /// The target is the loopback name or a loopback address.
    InvalidTarget,
    /// The OS query failed or returned no hardware address; transient,
    /// callers may retry.
    ResolutionError,
}

/// Decimal digit.
pub open spec fn is_dec_digit(c: char) -> bool {
    '0' as int <= c as int <= '9' as int
}

/// Value of a decimal digit.
pub open spec fn dec_digit_val(c: char) -> int {
    c as int - '0' as int
}

/// Value of a decimal digit string, most significant first.
pub open spec fn dec_value(s: Seq<char>) -> int
    decreases s.len(),
{
    if s.len() == 0 {
        0
    } else {
        dec_value(s.drop_last()) * 10 + dec_digit_val(s.last())
    }
}

/// A dotted-quad octet: one to three decimal digits, value at most 255.
pub open spec fn is_octet(s: Seq<char>) -> bool {
    1 <= s.len() <= 3 && (forall|i: int| 0 <= i < s.len() ==> is_dec_digit(#[trigger] s[i]))
        && dec_value(s) <= 255
}

/// A dotted-quad IPv4 address.
pub open spec fn is_ipv4(s: Seq<char>) -> bool {
    let p = spec_split(s, '.');
    p.len() == 4 && (forall|i: int| 0 <= i < 4 ==> is_octet(#[trigger] p[i]))
}

/// An IPv4 address in the loopback range (first octet 127).
pub open spec fn is_ipv4_loopback(s: Seq<char>) -> bool {
    is_ipv4(s) && dec_value(spec_split(s, '.')[0]) == 127
}

/// Hexadecimal digit.
pub open spec fn is_hex_digit(c: char) -> bool {
    ('0' as int <= c as int <= '9' as int) || ('a' as int <= c as int <= 'f' as int) || (
    'A' as int <= c as int <= 'F' as int)
}

/// Value of a hexadecimal digit.
pub open spec fn hex_digit_val(c: char) -> int {
    if '0' as int <= c as int <= '9' as int {
        c as int - '0' as int
    } else if 'a' as int <= c as int <= 'f' as int {
        c as int - 'a' as int + 10
    } else {
        c as int - 'A' as int + 10
    }
}

/// Value of a hexadecimal digit string, most significant first.
pub open spec fn hex_value(s: Seq<char>) -> int
    decreases s.len(),
{
    if s.len() == 0 {
        0
    } else {
        hex_value(s.drop_last()) * 16 + hex_digit_val(s.last())
    }
}

/// One IPv6 group: one to four hexadecimal digits.
pub open spec fn is_h16(s: Seq<char>) -> bool {
    1 <= s.len() <= 4 && (forall|i: int| 0 <= i < s.len() ==> is_hex_digit(#[trigger] s[i]))
}

/// One all-zero IPv6 group.
pub open spec fn is_zero_group(x: Seq<char>) -> bool {
    is_h16(x) && hex_value(x) == 0
}

/// The embedded dotted quad that spells the loopback's last 32 bits.
pub open spec fn is_loopback_quad(x: Seq<char>) -> bool {
    let q = spec_split(x, '.');
    is_ipv4(x) && dec_value(q[0]) == 0 && dec_value(q[1]) == 0 && dec_value(q[2]) == 0
        && dec_value(q[3]) == 1
}

/// How many 16-bit groups the final piece stands for, when it can end
/// the loopback address: a hex group of value one, or the embedded
/// dotted quad `0.0.0.1` (two groups).
pub open spec fn loopback_tail_groups(x: Seq<char>) -> Option<int> {
    if is_h16(x) && hex_value(x) == 1 {
        Some(1)
    } else if is_loopback_quad(x) {
        Some(2)
    } else {
        None
    }
}

/// Every piece in the index range is nonempty.
pub open spec fn nonempty_range(p: Seq<Seq<char>>, a: int, b: int) -> bool {
    forall|i: int| a <= i < b ==> (#[trigger] p[i]).len() != 0
}

/// Every piece in the index range is an all-zero group.
pub open spec fn zero_range(p: Seq<Seq<char>>, a: int, b: int) -> bool {
    forall|i: int| a <= i < b ==> is_zero_group(#[trigger] p[i])
}

/// The colon-separated pieces spell the loopback without compression:
/// the leading groups all zero and the tail completing exactly eight
/// groups.
pub open spec fn plain_loopback(p: Seq<Seq<char>>) -> bool {
    let n = p.len() as int;
    &&& nonempty_range(p, 0, n)
    &&& zero_range(p, 0, n - 1)
    &&& match loopback_tail_groups(p[n - 1]) {
        Some(g) => n - 1 + g == 8,
        None => false,
    }
}

/// The pieces spell the loopback with a leading `::` (which splits
/// into two leading empty pieces): the omitted run stands for at
/// least one zero group.
pub open spec fn leading_compressed_loopback(p: Seq<Seq<char>>) -> bool {
    let n = p.len() as int;
    &&& n >= 3
    &&& p[0].len() == 0
    &&& p[1].len() == 0
    &&& nonempty_range(p, 2, n)
    &&& zero_range(p, 2, n - 1)
    &&& match loopback_tail_groups(p[n - 1]) {
        Some(g) => n - 3 + g <= 7,
        None => false,
    }
}

/// The pieces spell the loopback with an inner `::` at piece `k`: the
/// surrounding groups all zero, the omitted run at least one group.
pub open spec fn inner_compressed_loopback_at(p: Seq<Seq<char>>, k: int) -> bool {
    let n = p.len() as int;
    &&& 1 <= k <= n - 2
    &&& p[k].len() == 0
    &&& nonempty_range(p, 0, k)
    &&& nonempty_range(p, k + 1, n)
    &&& zero_range(p, 0, k)
    &&& zero_range(p, k + 1, n - 1)
    &&& match loopback_tail_groups(p[n - 1]) {
        Some(g) => n - 2 + g <= 7,
        None => false,
    }
}

/// The IPv6 loopback address, in any spelling: uncompressed, or
/// `::`-compressed at a leading or inner position, with the final
/// group written as a hex group of value one or as the embedded
/// dotted quad `0.0.0.1`. A trailing `::` can never spell it: the
/// last group must hold the one.
pub open spec fn is_ipv6_loopback(s: Seq<char>) -> bool {
    let p = spec_split(s, ':');
    ||| plain_loopback(p)
    ||| leading_compressed_loopback(p)
    ||| (exists|k: int| #[trigger] inner_compressed_loopback_at(p, k))
}

/// A target that must be refused: the loopback name or a loopback
/// address.
pub open spec fn is_loopback_target(s: Seq<char>) -> bool {
    s == "localhost"@ || is_ipv4_loopback(s) || is_ipv6_loopback(s)
}

/// Parses a dotted-quad octet, yielding its value exactly when the
/// piece is a well-formed octet.
fn parse_octet(s: &str) -> (r: Option<u16>)
    ensures
        r is Some <==> is_octet(s@),
        r matches Some(v) ==> v as int == dec_value(s@),
{
    let n = s.unicode_len();
    if n < 1 || n > 3 {
        return None;
    }
    let mut val: u16 = 0;
    let mut j: usize = 0;
    while j < n
        invariant
            n == s@.len(),
            1 <= n <= 3,
            j <= n,
            forall|k: int| 0 <= k < j ==> is_dec_digit(#[trigger] s@[k]),
            val as int == dec_value(s@.take(j as int)),
            val < 1000,
            j < 3 ==> val < 100,
            j < 2 ==> val < 10,
        decreases n - j,
    {
        let c = s.get_char(j);
        let u = c as u32;
        if u < 48 || u > 57 {
            proof {
                assert(!is_dec_digit(s@[j as int]));
                assert(!is_octet(s@));
            }
            return None;
        }
        proof {
            assert(s@.take(j + 1int).drop_last() =~= s@.take(j as int));
            assert(s@.take(j + 1int).last() == s@[j as int]);
        }
        val = val * 10 + ((u - 48) as u16);
        j += 1;
    }
    proof {
        assert(s@.take(n as int) =~= s@);
    }
    if val > 255 {
        proof {
            assert(!is_octet(s@));
        }
        return None;
    }
    Some(val)
}

/// Parses an IPv6 group, yielding its value exactly when the piece is
/// a well-formed group.
fn parse_h16(s: &str) -> (r: Option<u32>)
    ensures
        r is Some <==> is_h16(s@),
        r matches Some(v) ==> v as int == hex_value(s@),
{
    let n = s.unicode_len();
    if n < 1 || n > 4 {
        return None;
    }
    let mut val: u32 = 0;
    let mut j: usize = 0;
    while j < n
        invariant
            n == s@.len(),
            1 <= n <= 4,
            j <= n,
            forall|k: int| 0 <= k < j ==> is_hex_digit(#[trigger] s@[k]),
            val as int == hex_value(s@.take(j as int)),
            val < 65536,
            j < 4 ==> val < 4096,
            j < 3 ==> val < 256,
            j < 2 ==> val < 16,
        decreases n - j,
    {
        let c = s.get_char(j);
        let u = c as u32;
        let d: u32;
        if 48 <= u && u <= 57 {
            d = u - 48;
        } else if 97 <= u && u <= 102 {
            d = u - 97 + 10;
        } else if 65 <= u && u <= 70 {
            d = u - 65 + 10;
        } else {
            proof {
                assert(!is_hex_digit(s@[j as int]));
                assert(!is_h16(s@));
            }
            return None;
        }
        proof {
            assert(s@.take(j + 1int).drop_last() =~= s@.take(j as int));
            assert(s@.take(j + 1int).last() == s@[j as int]);
            assert(d as int == hex_digit_val(s@[j as int]));
        }
        val = val * 16 + d;
        j += 1;
    }
    proof {
        assert(s@.take(n as int) =~= s@);
    }
    Some(val)
}

/// If the string is a dotted-quad IPv4 address, its four octet
/// values.
fn ipv4_octets(s: &str) -> (r: Option<(u16, u16, u16, u16)>)
    ensures
        r is Some <==> is_ipv4(s@),
        r matches Some(o) ==> ({
            let p = spec_split(s@, '.');
            o.0 as int == dec_value(p[0]) && o.1 as int == dec_value(p[1]) && o.2 as int
                == dec_value(p[2]) && o.3 as int == dec_value(p[3])
        }),
{
    let ghost p = spec_split(s@, '.');
    let parts = split_char(s, '.');
    if parts.len() != 4 {
        return None;
    }
    let mut vals: Vec<u16> = Vec::new();
    let mut i: usize = 0;
    while i < 4
        invariant
            p == spec_split(s@, '.'),
            parts@.map_values(|x: String| x@) == p,
            parts@.len() == 4,
            p.len() == 4,
            i <= 4,
            vals@.len() == i,
            forall|k: int|
                0 <= k < i ==> is_octet(#[trigger] p[k]) && vals@[k] as int == dec_value(p[k]),
        decreases 4 - i,
    {
        proof {
            assert(p[i as int] == parts@[i as int]@);
        }
        match parse_octet(parts[i].as_str()) {
            Some(v) => {
                vals.push(v);
            },
            None => {
                proof {
                    assert(!is_octet(p[i as int]));
                    assert(!is_ipv4(s@));
                }
                return None;
            },
        }
        i += 1;
    }
    Some((vals[0], vals[1], vals[2], vals[3]))
}

/// How many loopback groups the final colon-separated piece stands
/// for, if it can end the loopback address.
fn tail_groups_str(x: &str) -> (r: Option<u8>)
    ensures
        match r {
            Some(g) => loopback_tail_groups(x@) == Some(g as int),
            None => loopback_tail_groups(x@) is None,
        },
{
    match parse_h16(x) {
        Some(v) => {
            if v == 1 {
                return Some(1);
            }
        },
        None => {},
    }
    match ipv4_octets(x) {
        Some(o) => {
            if o.0 == 0 && o.1 == 0 && o.2 == 0 && o.3 == 1 {
                Some(2)
            } else {
                None
            }
        },
        None => None,
    }
}

/// Whether every piece in the index range is an all-zero group.
fn all_zero_groups(parts: &Vec<String>, a: usize, b: usize) -> (r: bool)
    requires
        a <= b,
        b <= parts@.len(),
    ensures
        r == zero_range(parts@.map_values(|x: String| x@), a as int, b as int),
{
    let ghost p = parts@.map_values(|x: String| x@);
    let mut i = a;
    while i < b
        invariant
            p == parts@.map_values(|x: String| x@),
            a <= i <= b,
            b <= parts@.len(),
            forall|k: int| a <= k < i ==> is_zero_group(#[trigger] p[k]),
        decreases b - i,
    {
        proof {
            assert(p[i as int] == parts@[i as int]@);
        }
        let ok = match parse_h16(parts[i].as_str()) {
            Some(v) => v == 0,
            None => false,
        };
        if !ok {
            proof {
                assert(!is_zero_group(p[i as int]));
                assert(!zero_range(p, a as int, b as int));
            }
            return false;
        }
        i += 1;
    }
    true
}

/// Whether the string is the IPv6 loopback address, in any spelling.
fn is_ipv6_loopback_str(s: &str) -> (r: bool)
    ensures
        r == is_ipv6_loopback(s@),
{
    let ghost p = spec_split(s@, ':');
    let parts = split_char(s, ':');
    let n = parts.len();
    proof {
        crate::textutil::lemma_split_nonempty(s@, ':');
    }

    // Locate the empty pieces: their number and the first three
    // positions decide which compression shape, if any, can hold.
    let mut num_empty: usize = 0;
    let mut first_e: usize = n;
    let mut second_e: usize = n;
    let mut third_e: usize = n;
    let mut i: usize = 0;
    while i < n
        invariant
            p == spec_split(s@, ':'),
            parts@.map_values(|x: String| x@) == p,
            n == parts@.len(),
            i <= n,
            num_empty <= i,
            num_empty == 0 ==> first_e == n && second_e == n && third_e == n && nonempty_range(
                p,
                0,
                i as int,
            ),
            num_empty >= 1 ==> first_e < i && p[first_e as int].len() == 0 && nonempty_range(
                p,
                0,
                first_e as int,
            ),
            num_empty == 1 ==> second_e == n && third_e == n && nonempty_range(
                p,
                first_e + 1,
                i as int,
            ),
            num_empty >= 2 ==> first_e < second_e && second_e < i && p[second_e as int].len() == 0
                && nonempty_range(p, first_e + 1, second_e as int),
            num_empty == 2 ==> third_e == n && nonempty_range(p, second_e + 1, i as int),
            num_empty >= 3 ==> second_e < third_e && third_e < i
                && p[third_e as int].len() == 0,
        decreases n - i,
    {
        proof {
            assert(p[i as int] == parts@[i as int]@);
        }
        if parts[i].as_str().unicode_len() == 0 {
            if num_empty == 0 {
                first_e = i;
            } else if num_empty == 1 {
                second_e = i;
            } else if num_empty == 2 {
                third_e = i;
            }
            num_empty += 1;
        }
        i += 1;
    }

    if num_empty == 0 {
        // Only the uncompressed shape can hold.
        proof {
            assert(!leading_compressed_loopback(p));
            assert forall|k: int| !inner_compressed_loopback_at(p, k) by {
                if 1 <= k <= p.len() - 2 {
                    assert(p[k].len() != 0);
                }
            }
        }
        match tail_groups_str(parts[n - 1].as_str()) {
            None => {
                proof {
                    assert(p[n - 1int] == parts@[n - 1int]@);
                    assert(!plain_loopback(p));
                }
                false
            },
            Some(g) => {
                proof {
                    assert(p[n - 1int] == parts@[n - 1int]@);
                }
                if (g == 1 && n == 8) || (g == 2 && n == 7) {
                    let z = all_zero_groups(&parts, 0, n - 1);
                    proof {
                        if z {
                            assert(plain_loopback(p));
                        } else {
                            assert(!plain_loopback(p));
                        }
                    }
                    z
                } else {
                    proof {
                        assert(!plain_loopback(p));
                    }
                    false
                }
            },
        }
    } else if num_empty == 2 && first_e == 0 && second_e == 1 {
        // Only the leading-compressed shape can hold.
        proof {
            assert(!plain_loopback(p));
            assert forall|k: int| !inner_compressed_loopback_at(p, k) by {
                if 1 <= k <= p.len() - 2 {
                    assert(inner_compressed_loopback_at(p, k) ==> p[0].len() != 0);
                }
            }
        }
        if n < 3 {
            proof {
                assert(!leading_compressed_loopback(p));
            }
            return false;
        }
        proof {
            assert(p[n - 1int] == parts@[n - 1int]@);
        }
        match tail_groups_str(parts[n - 1].as_str()) {
            None => {
                proof {
                    assert(!leading_compressed_loopback(p));
                }
                false
            },
            Some(g) => {
                if n - 3 + (g as usize) <= 7 {
                    let z = all_zero_groups(&parts, 2, n - 1);
                    proof {
                        if z {
                            assert(leading_compressed_loopback(p));
                        } else {
                            assert(!leading_compressed_loopback(p));
                        }
                    }
                    z
                } else {
                    proof {
                        assert(!leading_compressed_loopback(p));
                    }
                    false
                }
            },
        }
    } else if num_empty == 1 && 1 <= first_e && first_e <= n - 2 {
        // Only the inner-compressed shape, at the one empty piece, can
        // hold.
        proof {
            assert(!plain_loopback(p));
            assert(!leading_compressed_loopback(p));
            assert forall|k: int|
                k != first_e as int implies !inner_compressed_loopback_at(p, k) by {
                if 1 <= k <= p.len() - 2 {
                    assert(p[k].len() != 0);
                }
            }
            assert(p[n - 1int] == parts@[n - 1int]@);
        }
        match tail_groups_str(parts[n - 1].as_str()) {
            None => {
                proof {
                    assert(!inner_compressed_loopback_at(p, first_e as int));
                }
                false
            },
            Some(g) => {
                if n - 2 + (g as usize) <= 7 {
                    let z1 = all_zero_groups(&parts, 0, first_e);
                    let z2 = all_zero_groups(&parts, first_e + 1, n - 1);
                    proof {
                        if z1 && z2 {
                            assert(inner_compressed_loopback_at(p, first_e as int));
                        } else {
                            assert(!inner_compressed_loopback_at(p, first_e as int));
                        }
                    }
                    z1 && z2
                } else {
                    proof {
                        assert(!inner_compressed_loopback_at(p, first_e as int));
                    }
                    false
                }
            },
        }
    } else {
        // An empty-piece pattern no loopback spelling has.
        proof {
            assert(!plain_loopback(p));
            if first_e >= 1 {
                assert(p[0].len() != 0);
                assert(!leading_compressed_loopback(p));
            } else if num_empty == 1 {
                // sole empty piece at the front: `p[1]` is nonempty or
                // the split is too short
                if n >= 2 {
                    assert(p[1].len() != 0);
                }
                assert(!leading_compressed_loopback(p));
            } else if second_e >= 2 {
                assert(p[1].len() != 0);
                assert(!leading_compressed_loopback(p));
            } else {
                // first two pieces empty and at least a third one
                assert(num_empty >= 3);
                assert(p[third_e as int].len() == 0 && third_e as int >= 2);
                assert(!leading_compressed_loopback(p));
            }
            assert forall|k: int| !inner_compressed_loopback_at(p, k) by {
                if 1 <= k <= p.len() - 2 {
                    if num_empty == 1 {
                        if p[k].len() == 0 {
                            assert(k == first_e as int);
                        }
                    } else {
                        // two empty pieces: one of them differs from k
                        // and breaks the surrounding nonempty ranges
                        let e = if first_e as int != k {
                            first_e as int
                        } else {
                            second_e as int
                        };
                        assert(p[e].len() == 0 && 0 <= e < p.len() && e != k);
                    }
                }
            }
        }
        false
    }
}

/// Whether the target must be refused for MAC resolution.
pub fn loopback_target(s: &str) -> (r: bool)
    ensures
        r == is_loopback_target(s@),
{
    if str_eq(s, "localhost") {
        return true;
    }
    match ipv4_octets(s) {
        Some(o) => {
            if o.0 == 127 {
                return true;
            }
        },
        None => {},
    }
    is_ipv6_loopback_str(s)
}

/// The check MAC resolution performs before any external lookup: a
/// loopback target is refused outright, with no external process
/// invoked; every other target is left to the OS query.
pub fn mac_resolution_precheck(target: &str) -> (r: Result<(), MacError>)
    ensures
        r is Ok <==> !is_loopback_target(target@),
        r is Err ==> r == Err::<(), MacError>(MacError::InvalidTarget),
{
    if loopback_target(target) {
        Err(MacError::InvalidTarget)
    } else {
        Ok(())
    }
}

/// The decision on the OS query's outcome: a successful run whose
/// trimmed output is nonempty yields the hardware address; anything
/// else is a transient resolution failure that callers may retry.
pub fn mac_query_outcome(status_ok: bool, stdout: &str) -> (r: Result<String, MacError>)
    ensures
        status_ok && spec_trim(stdout@).len() > 0 ==> (r matches Ok(m) && m@ == spec_trim(
            stdout@,
        )),
        !(status_ok && spec_trim(stdout@).len() > 0) ==> r == Err::<String, MacError>(
            MacError::ResolutionError,
        ),
{
    if status_ok {
        let trimmed = trim_str(stdout);
        if trimmed.unicode_len() > 0 {
            return Ok(String::from_str(trimmed));
        }
    }
    Err(MacError::ResolutionError)
}

} // verus!
