//! The four server services: bind (with its rebind policy), unbind,
//! report (heartbeat), sync (credential delivery) and status
//! (aggregation), all acting on the [`Registry`](crate::store::Registry).
//!
//! Each service's effect on the stores is stated as an equation between
//! the abstract view after the call and a spec-level transition function
//! of the view before it.

use vstd::prelude::*;

use crate::store::{
    BindingV, Credential, CredentialV, DeviceBinding, Registry, binding_has_id, distinct_ids,
    distinct_macs, find_binding, find_credential, has_id, has_mac, id_index, lemma_id_index,
    lemma_mac_index, mac_index, unknown_id,
};

verus! {

/// How a successful bind call changed the registry.
#[derive(Clone, Copy, Debug, PartialEq, Eq, Structural)]
pub enum BindOutcome {
    /// No row existed for the address; one was created.
    Created,
    /// An existing row was overwritten (rebind).
    Updated,
}

/// Why a bind call was rejected. Policy rejections leave the stores
/// untouched.
#[derive(Clone, Copy, Debug, PartialEq, Eq, Structural)]
pub enum BindError {
    /// Binding is administratively disabled.
    FeatureDisabled,
    /// A binding exists and rebinding is disabled.
    RebindBlocked,
}

/// Why an unbind call failed.
#[derive(Clone, Copy, Debug, PartialEq, Eq, Structural)]
pub enum UnbindError {
    /// No binding exists for the address.
    NotFound,
}

/// Why a sync call failed.
#[derive(Clone, Copy, Debug, PartialEq, Eq, Structural)]
pub enum SyncError {
    /// The sync service is administratively disabled.
    FeatureDisabled,
    /// No identity is bound to the address.
    Unbound,
    /// The bound identity has no credential row yet: provisioning lags
    /// behind binding. This is an integrity condition, not a client
    /// error.
    MissingCredential,
}

/// Credentials returned by a sync call.
#[derive(Debug, PartialEq, Eq)]
pub struct SyncInfo {
    pub username: String,
    pub password: String,
}

/// The registry row a bind call writes.
pub open spec fn bound_row(
    mac: Seq<char>,
    id: Seq<char>,
    ip: Seq<char>,
    client_version: Seq<char>,
    now: i64,
) -> BindingV {
    BindingV { mac, id, ip, client_version, last_seen: now }
}

/// Effect of a permitted bind call on the identity registry: insert a
/// row for a fresh address, overwrite the existing row otherwise.
pub open spec fn bind_transition(
    s: Seq<BindingV>,
    mac: Seq<char>,
    id: Seq<char>,
    ip: Seq<char>,
    client_version: Seq<char>,
    now: i64,
) -> Seq<BindingV> {
    if has_mac(s, mac) {
        s.update(mac_index(s, mac), bound_row(mac, id, ip, client_version, now))
    } else {
        s.push(bound_row(mac, id, ip, client_version, now))
    }
}

/// Applies the rebind policy and upserts the identity registry.
///
/// Policy: with binding disabled every call is rejected; a fresh
/// address is always bound; an existing binding is overwritten only
/// when rebinding is enabled, and rejected otherwise even if the
/// claimed identity matches the stored one. Rejections leave both
/// stores untouched; the credential store is never touched.
pub fn bind_device(
    reg: &mut Registry,
    enable_bind: bool,
    enable_bind_update: bool,
    mac: &String,
    id: &String,
    ip: &String,
    client_version: &String,
    now: i64,
) -> (r: Result<BindOutcome, BindError>)
    requires
        old(reg).wf(),
    ensures
        final(reg).wf(),
        final(reg).cv() == old(reg).cv(),
        !enable_bind ==> r == Err::<BindOutcome, BindError>(BindError::FeatureDisabled)
            && final(reg).bv() == old(reg).bv(),
        enable_bind && !has_mac(old(reg).bv(), mac@) ==> r == Ok::<BindOutcome, BindError>(
            BindOutcome::Created,
        ) && final(reg).bv() == bind_transition(old(reg).bv(), mac@, id@, ip@, client_version@, now),
        enable_bind && has_mac(old(reg).bv(), mac@) && !enable_bind_update ==> r == Err::<
            BindOutcome,
            BindError,
        >(BindError::RebindBlocked) && final(reg).bv() == old(reg).bv(),
        enable_bind && has_mac(old(reg).bv(), mac@) && enable_bind_update ==> r == Ok::<
            BindOutcome,
            BindError,
        >(BindOutcome::Updated) && final(reg).bv() == bind_transition(
            old(reg).bv(),
            mac@,
            id@,
            ip@,
            client_version@,
            now,
        ),
{
    if !enable_bind {
        return Err(BindError::FeatureDisabled);
    }
    let row = DeviceBinding {
        mac: clone_string(mac),
        id: clone_string(id),
        ip: clone_string(ip),
        client_version: clone_string(client_version),
        last_seen: now,
    };
    match find_binding(&reg.bindings, mac) {
        None => {
            reg.bindings.push(row);
            proof {
                assert(reg.bv() =~= old(reg).bv().push(
                    bound_row(mac@, id@, ip@, client_version@, now),
                ));
                assert(reg.cv() =~= old(reg).cv());
                assert(distinct_macs(reg.bv()));
            }
            Ok(BindOutcome::Created)
        },
        Some(i) => {
            proof {
                assert(old(reg).bv()[i as int].mac == mac@);
                assert(has_mac(old(reg).bv(), mac@));
            }
            if !enable_bind_update {
                return Err(BindError::RebindBlocked);
            }
            proof {
                lemma_mac_index(old(reg).bv(), i as int);
            }
            reg.bindings.set(i, row);
            proof {
                assert(reg.bv() =~= old(reg).bv().update(
                    i as int,
                    bound_row(mac@, id@, ip@, client_version@, now),
                ));
                assert(reg.cv() =~= old(reg).cv());
                assert(distinct_macs(reg.bv()));
            }
            Ok(BindOutcome::Updated)
        },
    }
}

/// Copies a string; the copy reads the same.
fn clone_string(s: &String) -> (r: String)
    ensures
        r@ == s@,
{
    String::from_str(s.as_str())
}

/// Effect of a successful unbind on the identity registry: the row for
/// the address disappears, the others keep their order.
pub open spec fn unbind_transition(s: Seq<BindingV>, mac: Seq<char>) -> Seq<BindingV> {
    s.remove(mac_index(s, mac))
}

/// Deletes the binding for a hardware address. Privileged: callers must
/// have authenticated with the administrative secret first.
pub fn unbind_device(reg: &mut Registry, mac: &String) -> (r: Result<(), UnbindError>)
    requires
        old(reg).wf(),
    ensures
        final(reg).wf(),
        final(reg).cv() == old(reg).cv(),
        !has_mac(old(reg).bv(), mac@) ==> r == Err::<(), UnbindError>(UnbindError::NotFound)
            && final(reg).bv() == old(reg).bv(),
        has_mac(old(reg).bv(), mac@) ==> r == Ok::<(), UnbindError>(()) && final(reg).bv()
            == unbind_transition(old(reg).bv(), mac@),
{
    match find_binding(&reg.bindings, mac) {
        None => Err(UnbindError::NotFound),
        Some(i) => {
            proof {
                assert(old(reg).bv()[i as int].mac == mac@);
                assert(has_mac(old(reg).bv(), mac@));
                lemma_mac_index(old(reg).bv(), i as int);
            }
            reg.bindings.remove(i);
            proof {
                assert(reg.bv() =~= old(reg).bv().remove(i as int));
                assert forall|p: int, q: int| 0 <= p < q < reg.bv().len() implies reg.bv()[p].mac
                    != reg.bv()[q].mac by {
                    let op = if p < i as int {
                        p
                    } else {
                        p + 1
                    };
                    let oq = if q < i as int {
                        q
                    } else {
                        q + 1
                    };
                    assert(reg.bv()[p] == old(reg).bv()[op]);
                    assert(reg.bv()[q] == old(reg).bv()[oq]);
                }
            }
            Ok(())
        },
    }
}

/// The identity a heartbeat from this address is accounted to: the
/// bound identity, or the sentinel for an unseen address.
pub open spec fn report_bound_id(s: Seq<BindingV>, mac: Seq<char>) -> Seq<char> {
    if has_mac(s, mac) {
        s[mac_index(s, mac)].id
    } else {
        unknown_id()
    }
}

/// Effect of a heartbeat on the identity registry: refresh the
/// liveness metadata of the bound row, keeping its identity, or create
/// a sentinel row for an unseen address.
pub open spec fn report_transition(
    s: Seq<BindingV>,
    mac: Seq<char>,
    ip: Seq<char>,
    client_version: Seq<char>,
    now: i64,
) -> Seq<BindingV> {
    if has_mac(s, mac) {
        let i = mac_index(s, mac);
        s.update(i, bound_row(mac, s[i].id, ip, client_version, now))
    } else {
        s.push(bound_row(mac, unknown_id(), ip, client_version, now))
    }
}

/// Effect of a confirming heartbeat on the credential store: the rows
/// holding the given identity get their synced flag set; every other
/// row is untouched.
pub open spec fn mark_synced(s: Seq<CredentialV>, id: Seq<char>) -> Seq<CredentialV> {
    s.map_values(
        |c: CredentialV|
            if c.id == id {
                CredentialV { id: c.id, username: c.username, password: c.password, synced: true }
            } else {
                c
            },
    )
}

/// Heartbeat endpoint: refreshes liveness metadata, records unseen
/// addresses under the sentinel identity, and — only for an address
/// that was already bound — lets a `synced = true` claim set the synced
/// flag of the bound identity's credentials.
///
/// Heartbeats never fail due to policy, and this is the only writer of
/// the synced flag.
pub fn report_device(
    reg: &mut Registry,
    mac: &String,
    synced: bool,
    ip: &String,
    client_version: &String,
    now: i64,
)
    requires
        old(reg).wf(),
    ensures
        final(reg).wf(),
        final(reg).bv() == report_transition(old(reg).bv(), mac@, ip@, client_version@, now),
        final(reg).cv() == if has_mac(old(reg).bv(), mac@) && synced {
            mark_synced(old(reg).cv(), report_bound_id(old(reg).bv(), mac@))
        } else {
            old(reg).cv()
        },
{
    match find_binding(&reg.bindings, mac) {
        None => {
            let row = DeviceBinding {
                mac: clone_string(mac),
                id: String::from_str("UNKNOWN"),
                ip: clone_string(ip),
                client_version: clone_string(client_version),
                last_seen: now,
            };
            reg.bindings.push(row);
            proof {
                assert(reg.bv() =~= old(reg).bv().push(
                    bound_row(mac@, unknown_id(), ip@, client_version@, now),
                ));
                assert(reg.cv() =~= old(reg).cv());
                assert(distinct_macs(reg.bv()));
            }
        },
        Some(i) => {
            proof {
                assert(old(reg).bv()[i as int].mac == mac@);
                assert(has_mac(old(reg).bv(), mac@));
                lemma_mac_index(old(reg).bv(), i as int);
            }
            let bound_id = clone_string(&reg.bindings[i].id);
            let row = DeviceBinding {
                mac: clone_string(mac),
                id: clone_string(&bound_id),
                ip: clone_string(ip),
                client_version: clone_string(client_version),
                last_seen: now,
            };
            reg.bindings.set(i, row);
            proof {
                assert(reg.bv() =~= report_transition(
                    old(reg).bv(),
                    mac@,
                    ip@,
                    client_version@,
                    now,
                ));
                assert(distinct_macs(reg.bv()));
            }
            if synced {
                mark_credentials_synced(&mut reg.credentials, &bound_id);
                proof {
                    assert(reg.cv() == mark_synced(
                        old(reg).cv(),
                        report_bound_id(old(reg).bv(), mac@),
                    ));
                    assert(distinct_ids(reg.cv()));
                }
            } else {
                proof {
                    assert(reg.cv() =~= old(reg).cv());
                }
            }
        },
    }
}

/// Sets the synced flag of every credential row holding the given
/// identity, leaving all other fields and rows as they were.
fn mark_credentials_synced(credentials: &mut Vec<Credential>, id: &String)
    ensures
        final(credentials)@.map_values(|c: Credential| c@) == mark_synced(
            old(credentials)@.map_values(|c: Credential| c@),
            id@,
        ),
{
    let ghost s0 = old(credentials)@.map_values(|c: Credential| c@);
    let n = credentials.len();
    let mut j: usize = 0;
    while j < n
        invariant
            n == credentials@.len(),
            j <= n,
            s0 == old(credentials)@.map_values(|c: Credential| c@),
            s0.len() == n,
            forall|k: int|
                0 <= k < j ==> credentials@.map_values(|c: Credential| c@)[k] == mark_synced(
                    s0,
                    id@,
                )[k],
            forall|k: int| j <= k < n ==> credentials@.map_values(|c: Credential| c@)[k] == s0[k],
        decreases n - j,
    {
        if credentials[j].id == *id {
            let c = &credentials[j];
            let row = Credential {
                id: clone_string(&c.id),
                username: clone_string(&c.username),
                password: clone_string(&c.password),
                synced: true,
            };
            credentials.set(j, row);
        }
        j += 1;
    }
    proof {
        assert(credentials@.map_values(|c: Credential| c@) =~= mark_synced(s0, id@));
    }
}

/// What a sync call returns, as a function of the stores: the bound
/// identity's username and password, or the reason it is refused.
pub open spec fn sync_spec(
    b: Seq<BindingV>,
    c: Seq<CredentialV>,
    mac: Seq<char>,
    enable_sync: bool,
) -> Result<(Seq<char>, Seq<char>), SyncError> {
    if !enable_sync {
        Err(SyncError::FeatureDisabled)
    } else if !has_mac(b, mac) {
        Err(SyncError::Unbound)
    } else if !has_id(c, b[mac_index(b, mac)].id) {
        Err(SyncError::MissingCredential)
    } else {
        let cr = c[id_index(c, b[mac_index(b, mac)].id)];
        Ok((cr.username, cr.password))
    }
}

/// The executable result agrees with `sync_spec`.
pub open spec fn sync_result_matches(
    b: Seq<BindingV>,
    c: Seq<CredentialV>,
    mac: Seq<char>,
    enable_sync: bool,
    r: Result<SyncInfo, SyncError>,
) -> bool {
    match sync_spec(b, c, mac, enable_sync) {
        Ok(creds) => r matches Ok(info) && info.username@ == creds.0 && info.password@ == creds.1,
        Err(e) => r == Err::<SyncInfo, SyncError>(e),
    }
}

/// Returns the credentials for the identity bound to a hardware
/// address, verbatim. Takes the registry immutably: credential
/// delivery never mutates state, so a client that crashed mid-apply can
/// always retry. Privileged: callers must have authenticated with the
/// sync secret first.
pub fn sync_credentials(reg: &Registry, enable_sync: bool, mac: &String) -> (r: Result<
    SyncInfo,
    SyncError,
>)
    requires
        reg.wf(),
    ensures
        sync_result_matches(reg.bv(), reg.cv(), mac@, enable_sync, r),
{
    if !enable_sync {
        return Err(SyncError::FeatureDisabled);
    }
    match find_binding(&reg.bindings, mac) {
        None => Err(SyncError::Unbound),
        Some(i) => {
            proof {
                assert(reg.bv()[i as int].mac == mac@);
                assert(has_mac(reg.bv(), mac@));
                lemma_mac_index(reg.bv(), i as int);
            }
            let bound_id = &reg.bindings[i].id;
            match find_credential(&reg.credentials, bound_id) {
                None => Err(SyncError::MissingCredential),
                Some(j) => {
                    proof {
                        assert(reg.cv()[j as int].id == bound_id@);
                        assert(has_id(reg.cv(), bound_id@));
                        lemma_id_index(reg.cv(), j as int);
                    }
                    let cr = &reg.credentials[j];
                    Ok(
                        SyncInfo {
                            username: clone_string(&cr.username),
                            password: clone_string(&cr.password),
                        },
                    )
                },
            }
        },
    }
}

/// One row of the unified status listing: a binding joined with the
/// credential row of its identity, either side possibly absent.
pub struct StatusInfo {
    pub mac: Option<String>,
    pub id: String,
    pub ip: Option<String>,
    pub client_version: Option<String>,
    pub last_seen: Option<i64>,
    pub username: Option<String>,
    pub password: Option<String>,
    pub synced: Option<bool>,
}

/// Abstract view of a [`StatusInfo`] row.
pub struct StatusRowV {
    pub mac: Option<Seq<char>>,
    pub id: Seq<char>,
    pub ip: Option<Seq<char>>,
    pub client_version: Option<Seq<char>>,
    pub last_seen: Option<i64>,
    pub username: Option<Seq<char>>,
    pub password: Option<Seq<char>>,
    pub synced: Option<bool>,
}

impl View for StatusInfo {
    type V = StatusRowV;

    open spec fn view(&self) -> StatusRowV {
        StatusRowV {
            mac: match self.mac {
                Some(s) => Some(s@),
                None => None,
            },
            id: self.id@,
            ip: match self.ip {
                Some(s) => Some(s@),
                None => None,
            },
            client_version: match self.client_version {
                Some(s) => Some(s@),
                None => None,
            },
            last_seen: self.last_seen,
            username: match self.username {
                Some(s) => Some(s@),
                None => None,
            },
            password: match self.password {
                Some(s) => Some(s@),
                None => None,
            },
            synced: self.synced,
        }
    }
}

/// Aggregate counts plus the unified listing returned by the status
/// service.
pub struct StatusReport {
    /// Number of stored bindings (distinct hardware addresses).
    pub bind_count: usize,
    /// Number of stored credential rows.
    pub info_count: usize,
    /// Number of credential rows already synced.
    pub sync_count: usize,
    /// Number of credential rows not yet synced.
    pub notsync_count: usize,
    /// Unified listing: every binding, then every unclaimed credential.
    pub infos: Vec<StatusInfo>,
}

/// The listing row for a binding: its own columns, joined with the
/// credential columns of its identity when a credential row exists.
pub open spec fn joined_row(b: BindingV, c: Seq<CredentialV>) -> StatusRowV {
    if has_id(c, b.id) {
        let cr = c[id_index(c, b.id)];
        StatusRowV {
            mac: Some(b.mac),
            id: b.id,
            ip: Some(b.ip),
            client_version: Some(b.client_version),
            last_seen: Some(b.last_seen),
            username: Some(cr.username),
            password: Some(cr.password),
            synced: Some(cr.synced),
        }
    } else {
        StatusRowV {
            mac: Some(b.mac),
            id: b.id,
            ip: Some(b.ip),
            client_version: Some(b.client_version),
            last_seen: Some(b.last_seen),
            username: None,
            password: None,
            synced: None,
        }
    }
}

/// The listing row for a credential no binding claims.
pub open spec fn credential_row(c: CredentialV) -> StatusRowV {
    StatusRowV {
        mac: None,
        id: c.id,
        ip: None,
        client_version: None,
        last_seen: None,
        username: Some(c.username),
        password: Some(c.password),
        synced: Some(c.synced),
    }
}

/// The trailing part of the listing: one row for each credential whose
/// identity no binding claims, in store order.
pub open spec fn extra_rows(c: Seq<CredentialV>, b: Seq<BindingV>) -> Seq<StatusRowV>
    decreases c.len(),
{
    if c.len() == 0 {
        Seq::empty()
    } else {
        extra_rows(c.drop_last(), b) + if binding_has_id(b, c.last().id) {
            Seq::empty()
        } else {
            seq![credential_row(c.last())]
        }
    }
}

/// The leading part of the listing: one joined row per binding, in
/// store order.
pub open spec fn joined_rows(b: Seq<BindingV>, c: Seq<CredentialV>) -> Seq<StatusRowV> {
    b.map_values(|x: BindingV| joined_row(x, c))
}

/// The whole unified listing: bindings (joined on identity) in store
/// order, then the unclaimed credentials in store order.
pub open spec fn status_rows(b: Seq<BindingV>, c: Seq<CredentialV>) -> Seq<StatusRowV> {
    joined_rows(b, c) + extra_rows(c, b)
}

/// The abstract views of the listing rows, in order.
pub open spec fn row_views(s: Seq<StatusInfo>) -> Seq<StatusRowV> {
    s.map_values(|x: StatusInfo| x@)
}

/// Number of credential rows with the synced flag set.
pub open spec fn synced_count(c: Seq<CredentialV>) -> int
    decreases c.len(),
{
    if c.len() == 0 {
        0
    } else {
        synced_count(c.drop_last()) + if c.last().synced {
            1int
        } else {
            0int
        }
    }
}

/// Whether some binding claims the given identity.
fn binding_claims_id(bindings: &Vec<DeviceBinding>, id: &String) -> (r: bool)
    ensures
        r == binding_has_id(bindings@.map_values(|b: DeviceBinding| b@), id@),
{
    let ghost s = bindings@.map_values(|b: DeviceBinding| b@);
    let n = bindings.len();
    let mut j: usize = 0;
    while j < n
        invariant
            n == bindings@.len(),
            j <= n,
            s == bindings@.map_values(|b: DeviceBinding| b@),
            forall|k: int| 0 <= k < j ==> s[k].id != id@,
        decreases n - j,
    {
        if bindings[j].id == *id {
            proof {
                assert(s[j as int].id == id@);
                assert(binding_has_id(s, id@));
            }
            return true;
        }
        j += 1;
    }
    assert(!binding_has_id(s, id@));
    false
}

/// Read-only aggregation over both stores for operational visibility:
/// the three counts and the outer-join listing in both directions, so
/// that unmatched rows on either side are still surfaced. Privileged:
/// callers must have authenticated with the administrative secret
/// first.
pub fn status_report(reg: &Registry) -> (r: StatusReport)
    requires
        reg.wf(),
    ensures
        r.bind_count == reg.bv().len(),
        r.info_count == reg.cv().len(),
        r.sync_count == synced_count(reg.cv()),
        r.notsync_count == reg.cv().len() - synced_count(reg.cv()),
        row_views(r.infos@) == status_rows(reg.bv(), reg.cv()),
{
    let ghost bvs = reg.bv();
    let ghost cvs = reg.cv();
    let bn = reg.bindings.len();
    let cn = reg.credentials.len();

    let mut infos: Vec<StatusInfo> = Vec::new();
    let mut i: usize = 0;
    while i < bn
        invariant
            reg.wf(),
            bvs == reg.bv(),
            cvs == reg.cv(),
            bn == reg.bindings@.len(),
            i <= bn,
            row_views(infos@) =~= joined_rows(bvs.take(i as int), cvs),
        decreases bn - i,
    {
        let b = &reg.bindings[i];
        proof {
            assert(bvs[i as int] == reg.bindings@[i as int]@);
        }
        let row = match find_credential(&reg.credentials, &b.id) {
            Some(j) => {
                proof {
                    assert(cvs[j as int].id == bvs[i as int].id);
                    assert(has_id(cvs, bvs[i as int].id));
                    lemma_id_index(cvs, j as int);
                }
                let cr = &reg.credentials[j];
                StatusInfo {
                    mac: Some(clone_string(&b.mac)),
                    id: clone_string(&b.id),
                    ip: Some(clone_string(&b.ip)),
                    client_version: Some(clone_string(&b.client_version)),
                    last_seen: Some(b.last_seen),
                    username: Some(clone_string(&cr.username)),
                    password: Some(clone_string(&cr.password)),
                    synced: Some(cr.synced),
                }
            },
            None => StatusInfo {
                mac: Some(clone_string(&b.mac)),
                id: clone_string(&b.id),
                ip: Some(clone_string(&b.ip)),
                client_version: Some(clone_string(&b.client_version)),
                last_seen: Some(b.last_seen),
                username: None,
                password: None,
                synced: None,
            },
        };
        let ghost prev = infos@;
        infos.push(row);
        proof {
            assert(infos@ == prev.push(row));
            assert(row@ == joined_row(bvs[i as int], cvs));
            assert(row_views(prev).len() == prev.len());
            assert(prev.len() == i as int);
            assert forall|k: int| 0 <= k < infos@.len() implies row_views(infos@)[k]
                == joined_rows(bvs.take(i + 1int), cvs)[k] by {
                assert(row_views(infos@)[k] == infos@[k]@);
                if k < i as int {
                    assert(infos@[k] == prev[k]);
                    assert(row_views(prev)[k] == prev[k]@);
                    assert(row_views(prev)[k] == joined_rows(bvs.take(i as int), cvs)[k]);
                    assert(bvs.take(i as int)[k] == bvs.take(i + 1int)[k]);
                } else {
                    assert(infos@[k] == row);
                    assert(bvs.take(i + 1int)[k] == bvs[i as int]);
                }
            }
            assert(row_views(infos@) =~= joined_rows(bvs.take(i + 1int), cvs));
        }
        i += 1;
    }
    proof {
        assert(bvs.take(bn as int) =~= bvs);
    }

    let mut sync_count: usize = 0;
    let mut k: usize = 0;
    while k < cn
        invariant
            bvs == reg.bv(),
            cvs == reg.cv(),
            cn == reg.credentials@.len(),
            k <= cn,
            sync_count <= k,
            sync_count == synced_count(cvs.take(k as int)),
            row_views(infos@) =~= joined_rows(bvs, cvs) + extra_rows(cvs.take(k as int), bvs),
        decreases cn - k,
    {
        let c = &reg.credentials[k];
        proof {
            assert(cvs[k as int] == reg.credentials@[k as int]@);
        }
        let ghost prev = infos@;
        let claimed = binding_claims_id(&reg.bindings, &c.id);
        if !claimed {
            let row = StatusInfo {
                mac: None,
                id: clone_string(&c.id),
                ip: None,
                client_version: None,
                last_seen: None,
                username: Some(clone_string(&c.username)),
                password: Some(clone_string(&c.password)),
                synced: Some(c.synced),
            };
            proof {
                assert(row@ == credential_row(cvs[k as int]));
            }
            infos.push(row);
        }
        let new_sync_count = if c.synced {
            sync_count + 1
        } else {
            sync_count
        };
        proof {
            assert(cvs.take(k + 1int).drop_last() =~= cvs.take(k as int));
            assert(cvs.take(k + 1int).last() == cvs[k as int]);
            assert(synced_count(cvs.take(k + 1int)) == new_sync_count);
            let head = joined_rows(bvs, cvs);
            let tail_old = extra_rows(cvs.take(k as int), bvs);
            let tail_new = extra_rows(cvs.take(k + 1int), bvs);
            if claimed {
                assert(tail_new =~= tail_old);
                assert(row_views(infos@) =~= head + tail_new);
            } else {
                assert(tail_new =~= tail_old.push(credential_row(cvs[k as int])));
                assert(infos@ == prev.push(infos@.last()));
                assert(row_views(prev).len() == prev.len());
                assert(prev.len() == head.len() + tail_old.len());
                assert(tail_new.len() == tail_old.len() + 1);
                assert forall|p: int| 0 <= p < infos@.len() implies row_views(infos@)[p] == (
                head + tail_new)[p] by {
                    assert(row_views(infos@)[p] == infos@[p]@);
                    if p < prev.len() {
                        assert(infos@[p] == prev[p]);
                        assert(row_views(prev)[p] == prev[p]@);
                        assert(row_views(prev)[p] == (head + tail_old)[p]);
                        if p >= head.len() {
                            assert((head + tail_old)[p] == tail_old[p - head.len()]);
                            assert((head + tail_new)[p] == tail_new[p - head.len()]);
                            assert(tail_new[p - head.len()] == tail_old[p - head.len()]);
                        }
                    } else {
                        assert(infos@[p] == infos@.last());
                        assert((head + tail_new)[p] == tail_new[p - head.len()]);
                        assert(p - head.len() == tail_old.len());
                        assert(tail_new[tail_old.len() as int] == credential_row(cvs[k as int]));
                    }
                }
                assert(row_views(infos@) =~= head + tail_new);
            }
        }
        sync_count = new_sync_count;
        k += 1;
    }
    proof {
        assert(cvs.take(cn as int) =~= cvs);
    }

    StatusReport {
        bind_count: bn,
        info_count: cn,
        sync_count,
        notsync_count: cn - sync_count,
        infos,
    }
}

/// Relies on chrono's `Utc::now`: seconds since the epoch at the
/// moment of the call. The value depends on the clock, so nothing is
/// assumed of it.
#[verifier::external_body]
fn now_timestamp() -> i64 {
    chrono::Utc::now().timestamp()
}

/// [`bind_device`] with the moment of the call as the row's last-seen
/// timestamp.
pub fn bind_device_now(
    reg: &mut Registry,
    enable_bind: bool,
    enable_bind_update: bool,
    mac: &String,
    id: &String,
    ip: &String,
    client_version: &String,
) -> (r: Result<BindOutcome, BindError>)
    requires
        old(reg).wf(),
    ensures
        final(reg).wf(),
        final(reg).cv() == old(reg).cv(),
        !enable_bind ==> r == Err::<BindOutcome, BindError>(BindError::FeatureDisabled)
            && final(reg).bv() == old(reg).bv(),
        enable_bind && !has_mac(old(reg).bv(), mac@) ==> r == Ok::<BindOutcome, BindError>(
            BindOutcome::Created,
        ) && exists|now: i64|
            final(reg).bv() == #[trigger] bind_transition(
                old(reg).bv(),
                mac@,
                id@,
                ip@,
                client_version@,
                now,
            ),
        enable_bind && has_mac(old(reg).bv(), mac@) && !enable_bind_update ==> r == Err::<
            BindOutcome,
            BindError,
        >(BindError::RebindBlocked) && final(reg).bv() == old(reg).bv(),
        enable_bind && has_mac(old(reg).bv(), mac@) && enable_bind_update ==> r == Ok::<
            BindOutcome,
            BindError,
        >(BindOutcome::Updated) && exists|now: i64|
            final(reg).bv() == #[trigger] bind_transition(
                old(reg).bv(),
                mac@,
                id@,
                ip@,
                client_version@,
                now,
            ),
{
    let now = now_timestamp();
    bind_device(reg, enable_bind, enable_bind_update, mac, id, ip, client_version, now)
}

/// [`report_device`] with the moment of the call as the row's
/// last-seen timestamp.
pub fn report_device_now(
    reg: &mut Registry,
    mac: &String,
    synced: bool,
    ip: &String,
    client_version: &String,
)
    requires
        old(reg).wf(),
    ensures
        final(reg).wf(),
        exists|now: i64|
            final(reg).bv() == #[trigger] report_transition(
                old(reg).bv(),
                mac@,
                ip@,
                client_version@,
                now,
            ),
        final(reg).cv() == if has_mac(old(reg).bv(), mac@) && synced {
            mark_synced(old(reg).cv(), report_bound_id(old(reg).bv(), mac@))
        } else {
            old(reg).cv()
        },
{
    let now = now_timestamp();
    report_device(reg, mac, synced, ip, client_version, now)
}

/// The identity currently bound to a hardware address, if any.
pub fn lookup_identity(reg: &Registry, mac: &String) -> (r: Option<String>)
    requires
        reg.wf(),
    ensures
        match r {
            Some(id) => has_mac(reg.bv(), mac@) && id@ == reg.bv()[mac_index(reg.bv(), mac@)].id,
            None => !has_mac(reg.bv(), mac@),
        },
{
    match find_binding(&reg.bindings, mac) {
        None => None,
        Some(i) => {
            proof {
                assert(reg.bv()[i as int].mac == mac@);
                assert(has_mac(reg.bv(), mac@));
                lemma_mac_index(reg.bv(), i as int);
            }
            Some(clone_string(&reg.bindings[i].id))
        },
    }
}

/// For a hardware address never seen before, a permitted bind call
/// creates a binding, and a subsequent lookup of that address returns
/// the claimed identity.
pub proof fn lemma_bind_fresh_then_lookup(
    s: Seq<BindingV>,
    mac: Seq<char>,
    id: Seq<char>,
    ip: Seq<char>,
    client_version: Seq<char>,
    now: i64,
)
    requires
        distinct_macs(s),
        !has_mac(s, mac),
    ensures
        ({
            let s2 = bind_transition(s, mac, id, ip, client_version, now);
            &&& distinct_macs(s2)
            &&& has_mac(s2, mac)
            &&& s2[mac_index(s2, mac)].id == id
        }),
{
    let s2 = bind_transition(s, mac, id, ip, client_version, now);
    assert(s2 == s.push(bound_row(mac, id, ip, client_version, now)));
    assert(s2[s.len() as int].mac == mac);
    assert(has_mac(s2, mac));
    assert(distinct_macs(s2));
    lemma_mac_index(s2, s.len() as int);
}

/// For a hardware address never seen before, a heartbeat creates a
/// binding under the sentinel identity `UNKNOWN`.
pub proof fn lemma_report_fresh_creates_unknown(
    s: Seq<BindingV>,
    mac: Seq<char>,
    ip: Seq<char>,
    client_version: Seq<char>,
    now: i64,
)
    requires
        distinct_macs(s),
        !has_mac(s, mac),
    ensures
        ({
            let s2 = report_transition(s, mac, ip, client_version, now);
            &&& distinct_macs(s2)
            &&& has_mac(s2, mac)
            &&& s2[mac_index(s2, mac)].id == unknown_id()
        }),
{
    let s2 = report_transition(s, mac, ip, client_version, now);
    assert(s2 == s.push(bound_row(mac, unknown_id(), ip, client_version, now)));
    assert(s2[s.len() as int].mac == mac);
    assert(has_mac(s2, mac));
    assert(distinct_macs(s2));
    lemma_mac_index(s2, s.len() as int);
}

/// Credential delivery is idempotent: two sync calls against the same
/// stores and address agree — both fail the same way, or both return
/// the same username and password. (The call itself takes the registry
/// immutably, so it can never change state.)
pub proof fn lemma_sync_idempotent(
    b: Seq<BindingV>,
    c: Seq<CredentialV>,
    mac: Seq<char>,
    enable_sync: bool,
    r1: Result<SyncInfo, SyncError>,
    r2: Result<SyncInfo, SyncError>,
)
    requires
        sync_result_matches(b, c, mac, enable_sync, r1),
        sync_result_matches(b, c, mac, enable_sync, r2),
    ensures
        r1 is Ok <==> r2 is Ok,
        r1 is Err ==> r1 == r2,
        r1 is Ok && r2 is Ok ==> r1->Ok_0.username@ == r2->Ok_0.username@ && r1->Ok_0.password@
            == r2->Ok_0.password@,
{
    match sync_spec(b, c, mac, enable_sync) {
        Ok(creds) => {
            assert(r1 matches Ok(i1) && i1.username@ == creds.0 && i1.password@ == creds.1);
            assert(r2 matches Ok(i2) && i2.username@ == creds.0 && i2.password@ == creds.1);
        },
        Err(e) => {
            assert(r1 == Err::<SyncInfo, SyncError>(e));
            assert(r2 == Err::<SyncInfo, SyncError>(e));
        },
    }
}

/// Stability of the synced flag: among the store transitions of this
/// module, only `mark_synced` — reached solely through a heartbeat
/// carrying a true synced claim for an already-bound address — touches
/// it. Where it differs from the old store, the row holds the bound
/// identity and the flag was set, never cleared; no other field of any
/// row changes. (Bind, unbind and sync leave the credential store
/// untouched by their contracts.)
pub proof fn lemma_synced_flag_stability(c: Seq<CredentialV>, id: Seq<char>, j: int)
    requires
        0 <= j < c.len(),
    ensures
        mark_synced(c, id).len() == c.len(),
        mark_synced(c, id)[j].synced != c[j].synced ==> c[j].id == id && mark_synced(c, id)[j].synced,
        mark_synced(c, id)[j].id == c[j].id,
        mark_synced(c, id)[j].username == c[j].username,
        mark_synced(c, id)[j].password == c[j].password,
{
}

/// The hardware addresses of the stored bindings, in store order.
pub open spec fn macs_of(b: Seq<BindingV>) -> Seq<Seq<char>> {
    b.map_values(|x: BindingV| x.mac)
}

/// The status counts are exact: the bind count equals the number of
/// distinct stored hardware addresses, the info count the number of
/// credential rows, and the sync count the number of credential rows
/// with the synced flag set — `status_report`'s contract ties its
/// fields to these quantities for any reachable store.
pub proof fn lemma_status_counts_exact(b: Seq<BindingV>, c: Seq<CredentialV>)
    requires
        distinct_macs(b),
    ensures
        macs_of(b).to_set().len() == b.len(),
        0 <= synced_count(c) <= c.len(),
    decreases c.len(),
{
    assert(macs_of(b).no_duplicates()) by {
        assert forall|i: int, j: int|
            0 <= i < macs_of(b).len() && 0 <= j < macs_of(b).len() && i != j implies macs_of(b)[i]
            != macs_of(b)[j] by {
            if i < j {
                assert(b[i].mac != b[j].mac);
            } else {
                assert(b[j].mac != b[i].mac);
            }
        }
    }
    macs_of(b).unique_seq_to_set();
    if c.len() > 0 {
        lemma_status_counts_exact(b, c.drop_last());
    }
}

} // verus!
