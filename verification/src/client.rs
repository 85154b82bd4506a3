//! Client-side orchestration logic for binding: extracting the host
//! from the configured server address, validating the network topology
//! and gating the bind flow on the result.

use vstd::prelude::*;

use crate::textutil::{contains_seq, contains_str, spec_trim, str_eq, trim_str};

verus! {

/// The bind flow was aborted because of the network topology.
#[derive(Clone, Copy, Debug, PartialEq, Eq, Structural)]
pub enum TopologyError {
    /// The server-observed address is none of the local interface
    /// addresses: a NAT or proxy sits in between, and address-based
    /// trust may be unreliable.
    Mismatch,
}

/// Reports whether the client-side prerequisites hold: the reverse
/// proxy must be installed and its service active before any
/// credential sync.
pub fn check_prerequisite(caddy_installed: bool, caddy_active: bool) -> (r: bool)
    ensures
        r == (caddy_installed && caddy_active),
{
    caddy_installed && caddy_active
}

/// Whether the client runs with the privileges its commands need: it
/// must be able to add and delete the managed account, to reload the
/// proxy service, and to write the proxy configuration file.
pub fn check_permission(
    useradd_ok: bool,
    userdel_ok: bool,
    reload_ok: bool,
    config_writable: bool,
) -> (r: bool)
    ensures
        r == (useradd_ok && userdel_ok && reload_ok && config_writable),
{
    useradd_ok && userdel_ok && reload_ok && config_writable
}

/// What follows the first `://` in the address, if anything does.
pub open spec fn host_rest(s: Seq<char>) -> Option<Seq<char>>
    decreases s.len(),
{
    if s.len() < 3 {
        None
    } else if s[0] == ':' && s[1] == '/' && s[2] == '/' {
        Some(s.skip(3))
    } else {
        host_rest(s.drop_first())
    }
}

/// A character that ends the host part: the port separator or the
/// start of a path.
pub open spec fn is_host_end(c: char) -> bool {
    c == ':' || c == '/'
}

/// The prefix up to the first port separator or path.
pub open spec fn host_part(s: Seq<char>) -> Seq<char>
    decreases s.len(),
{
    if s.len() == 0 {
        Seq::empty()
    } else if is_host_end(s[0]) {
        Seq::empty()
    } else {
        seq![s[0]] + host_part(s.drop_first())
    }
}

/// The host named by a configured server address: the non-empty part
/// between the first `://` and the following port or path, if the
/// address has that shape.
pub open spec fn host_of_address(s: Seq<char>) -> Option<Seq<char>> {
    match host_rest(s) {
        None => None,
        Some(r) => {
            if host_part(r).len() == 0 {
                None
            } else {
                Some(host_part(r))
            }
        },
    }
}

fn find_host_rest<'a>(s: &'a str) -> (r: Option<&'a str>)
    ensures
        match r {
            Some(t) => host_rest(s@) == Some(t@),
            None => host_rest(s@) is None,
        },
    decreases s@.len(),
{
    let n = s.unicode_len();
    if n < 3 {
        None
    } else if s.get_char(0) == ':' && s.get_char(1) == '/' && s.get_char(2) == '/' {
        let rest = s.substring_char(3, n);
        proof {
            assert(rest@ =~= s@.skip(3));
        }
        Some(rest)
    } else {
        let tail = s.substring_char(1, n);
        proof {
            assert(tail@ =~= s@.drop_first());
        }
        find_host_rest(tail)
    }
}

fn host_end_index(s: &str) -> (r: usize)
    ensures
        r <= s@.len(),
        forall|k: int| 0 <= k < r ==> !is_host_end(s@[k]),
        r < s@.len() ==> is_host_end(s@[r as int]),
{
    let n = s.unicode_len();
    let mut i: usize = 0;
    while i < n
        invariant
            n == s@.len(),
            i <= n,
            forall|k: int| 0 <= k < i ==> !is_host_end(s@[k]),
        decreases n - i,
    {
        let c = s.get_char(i);
        if c == ':' || c == '/' {
            return i;
        }
        i += 1;
    }
    n
}

/// A prefix free of host-ending characters, cut at one (or at the
/// end), is the host part.
proof fn lemma_host_part_prefix(s: Seq<char>, i: int)
    requires
        0 <= i <= s.len(),
        forall|k: int| 0 <= k < i ==> !is_host_end(s[k]),
        i < s.len() ==> is_host_end(s[i]),
    ensures
        host_part(s) == s.take(i),
    decreases i,
{
    if i == 0 {
        assert(host_part(s) =~= s.take(0));
    } else {
        assert(!is_host_end(s[0]));
        let t = s.drop_first();
        assert forall|k: int| 0 <= k < i - 1 implies !is_host_end(t[k]) by {
            assert(t[k] == s[k + 1]);
        }
        lemma_host_part_prefix(t, i - 1);
        assert(host_part(s) == seq![s[0]] + t.take(i - 1));
        assert(seq![s[0]] + t.take(i - 1) =~= s.take(i));
    }
}

/// Extracts the host from a configured server address of the form
/// `scheme://host[:port][/path]`; an address without that shape, or
/// with an empty host, yields nothing.
pub fn extract_host(addr: &str) -> (r: Option<String>)
    ensures
        match r {
            Some(h) => host_of_address(addr@) == Some(h@),
            None => host_of_address(addr@) is None,
        },
{
    match find_host_rest(addr) {
        None => None,
        Some(rest) => {
            let end = host_end_index(rest);
            proof {
                lemma_host_part_prefix(rest@, end as int);
            }
            if end == 0 {
                proof {
                    assert(host_part(rest@) =~= Seq::<char>::empty());
                }
                None
            } else {
                let host = rest.substring_char(0, end);
                proof {
                    assert(host@ =~= rest@.take(end as int));
                }
                Some(String::from_str(host))
            }
        },
    }
}

/// Whether the server-observed client address appears in the local
/// interface listing.
pub fn address_visible(netinfo: &str, observed_ip: &str) -> (r: bool)
    ensures
        r == contains_seq(netinfo@, observed_ip@),
{
    contains_str(netinfo, observed_ip)
}

/// Whether the reverse-proxy service reports itself active: the
/// status query's trimmed output must read exactly `active`.
pub fn caddy_is_active(status_output: &str) -> (r: bool)
    ensures
        r == (spec_trim(status_output@) == "active"@),
{
    str_eq(trim_str(status_output), "active")
}

/// Whether an HTTP status is the success every protocol call expects.
pub fn http_ok(status: u16) -> (r: bool)
    ensures
        r == (status == 200),
{
    status == 200
}

/// The error line reported for a failed HTTP call: the status, then
/// the server's canonical message and diagnostic text.
pub open spec fn rendered_response_error(
    status: Seq<char>,
    msg: Seq<char>,
    detail: Seq<char>,
) -> Seq<char> {
    "wrong response code "@ + status + ", error "@ + msg + " "@ + detail
}

/// Renders the error line for a failed HTTP call.
pub fn response_error_line(status: &str, msg: &str, detail: &str) -> (r: String)
    ensures
        r@ == rendered_response_error(status@, msg@, detail@),
{
    let mut out = String::from_str("wrong response code ");
    out.append(status);
    out.append(", error ");
    out.append(msg);
    out.append(" ");
    out.append(detail);
    proof {
        assert(out@ =~= rendered_response_error(status@, msg@, detail@));
    }
    out
}

/// Gates the bind flow on the topology check: a visible address
/// proceeds silently; a mismatch aborts unless the deployment
/// explicitly skips the check, in which case the flow proceeds with a
/// warning (the returned flag).
pub fn topology_gate(ip_visible: bool, skip_ip_check: bool) -> (r: Result<bool, TopologyError>)
    ensures
        ip_visible ==> r == Ok::<bool, TopologyError>(false),
        !ip_visible && skip_ip_check ==> r == Ok::<bool, TopologyError>(true),
        !ip_visible && !skip_ip_check ==> r == Err::<bool, TopologyError>(TopologyError::Mismatch),
{
    if ip_visible {
        Ok(false)
    } else if skip_ip_check {
        Ok(true)
    } else {
        Err(TopologyError::Mismatch)
    }
}

} // verus!
