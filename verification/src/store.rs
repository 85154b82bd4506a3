//! The two persistent stores of the server: device bindings keyed by
//! hardware address and contestant credentials keyed by identity.
//!
//! Each store is a vector with a uniqueness invariant (at most one row
//! per key). Contracts speak about the stores through abstract views:
//! sequences of records whose text fields are character sequences.

use vstd::prelude::*;

verus! {

/// One row of the identity registry: a hardware address bound to a
/// contestant identity, with last-seen metadata.
pub struct DeviceBinding {
    /// Hardware (MAC) address; unique key.
    pub mac: String,
    /// Bound contestant identity, or the sentinel `UNKNOWN`.
    pub id: String,
    /// Network address the device was last seen from.
    pub ip: String,
    /// Client version string from the last bind or heartbeat.
    pub client_version: String,
    /// Timestamp of the last bind or heartbeat.
    pub last_seen: i64,
}

/// One row of the credential store: a contestant identity with its
/// login data and a flag recording whether the credentials were applied.
pub struct Credential {
    /// Contestant identity; unique key.
    pub id: String,
    pub username: String,
    pub password: String,
    /// True once a heartbeat reported successful synchronization.
    pub synced: bool,
}

/// Abstract view of a [`DeviceBinding`].
pub struct BindingV {
    pub mac: Seq<char>,
    pub id: Seq<char>,
    pub ip: Seq<char>,
    pub client_version: Seq<char>,
    pub last_seen: i64,
}

/// Abstract view of a [`Credential`].
pub struct CredentialV {
    pub id: Seq<char>,
    pub username: Seq<char>,
    pub password: Seq<char>,
    pub synced: bool,
}

impl View for DeviceBinding {
    type V = BindingV;

    open spec fn view(&self) -> BindingV {
        BindingV {
            mac: self.mac@,
            id: self.id@,
            ip: self.ip@,
            client_version: self.client_version@,
            last_seen: self.last_seen,
        }
    }
}

impl View for Credential {
    type V = CredentialV;

    open spec fn view(&self) -> CredentialV {
        CredentialV {
            id: self.id@,
            username: self.username@,
            password: self.password@,
            synced: self.synced,
        }
    }
}

/// The sentinel identity recorded for hardware addresses first observed
/// via heartbeat, before any bind call.
pub open spec fn unknown_id() -> Seq<char> {
    "UNKNOWN"@
}

/// There is a binding for the given hardware address.
pub open spec fn has_mac(s: Seq<BindingV>, mac: Seq<char>) -> bool {
    exists|i: int| 0 <= i < s.len() && s[i].mac == mac
}

/// Index of the binding for the given hardware address (meaningful only
/// when `has_mac` holds; unique under `distinct_macs`).
pub open spec fn mac_index(s: Seq<BindingV>, mac: Seq<char>) -> int {
    choose|i: int| 0 <= i < s.len() && s[i].mac == mac
}

/// There is a credential row for the given identity.
pub open spec fn has_id(s: Seq<CredentialV>, id: Seq<char>) -> bool {
    exists|i: int| 0 <= i < s.len() && s[i].id == id
}

/// Index of the credential row for the given identity (meaningful only
/// when `has_id` holds; unique under `distinct_ids`).
pub open spec fn id_index(s: Seq<CredentialV>, id: Seq<char>) -> int {
    choose|i: int| 0 <= i < s.len() && s[i].id == id
}

/// Some binding claims the given identity.
pub open spec fn binding_has_id(s: Seq<BindingV>, id: Seq<char>) -> bool {
    exists|i: int| 0 <= i < s.len() && s[i].id == id
}

/// At most one binding per hardware address.
pub open spec fn distinct_macs(s: Seq<BindingV>) -> bool {
    forall|i: int, j: int| 0 <= i < j < s.len() ==> s[i].mac != s[j].mac
}

/// At most one credential row per identity.
pub open spec fn distinct_ids(s: Seq<CredentialV>) -> bool {
    forall|i: int, j: int| 0 <= i < j < s.len() ==> s[i].id != s[j].id
}

/// Both stores, as held by a running server.
pub struct Registry {
    pub bindings: Vec<DeviceBinding>,
    pub credentials: Vec<Credential>,
}

impl Registry {
    /// Abstract view of the identity registry.
    pub open spec fn bv(self) -> Seq<BindingV> {
        self.bindings@.map_values(|b: DeviceBinding| b@)
    }

    /// Abstract view of the credential store.
    pub open spec fn cv(self) -> Seq<CredentialV> {
        self.credentials@.map_values(|c: Credential| c@)
    }

    /// Store invariant: both keys are unique.
    pub open spec fn wf(self) -> bool {
        distinct_macs(self.bv()) && distinct_ids(self.cv())
    }

    /// An empty registry.
    pub fn new() -> (r: Registry)
        ensures
            r.wf(),
            r.bv() =~= Seq::<BindingV>::empty(),
            r.cv() =~= Seq::<CredentialV>::empty(),
    {
        Registry { bindings: Vec::new(), credentials: Vec::new() }
    }
}

/// Under `distinct_macs`, any row holding a given address is THE row
/// `mac_index` denotes.
pub proof fn lemma_mac_index(s: Seq<BindingV>, i: int)
    requires
        distinct_macs(s),
        0 <= i < s.len(),
    ensures
        mac_index(s, s[i].mac) == i,
{
    let mac = s[i].mac;
    assert(has_mac(s, mac));
    let j = mac_index(s, mac);
    assert(0 <= j < s.len() && s[j].mac == mac);
    if i < j {
        assert(s[i].mac != s[j].mac);
    } else if j < i {
        assert(s[j].mac != s[i].mac);
    }
}

/// Under `distinct_ids`, any row holding a given identity is THE row
/// `id_index` denotes.
pub proof fn lemma_id_index(s: Seq<CredentialV>, i: int)
    requires
        distinct_ids(s),
        0 <= i < s.len(),
    ensures
        id_index(s, s[i].id) == i,
{
    let id = s[i].id;
    assert(has_id(s, id));
    let j = id_index(s, id);
    assert(0 <= j < s.len() && s[j].id == id);
    if i < j {
        assert(s[i].id != s[j].id);
    } else if j < i {
        assert(s[j].id != s[i].id);
    }
}

/// Locates the binding row for a hardware address, if any.
pub fn find_binding(bindings: &Vec<DeviceBinding>, mac: &String) -> (r: Option<usize>)
    ensures
        match r {
            Some(i) => i < bindings@.len() && bindings@[i as int]@.mac == mac@,
            None => !has_mac(bindings@.map_values(|b: DeviceBinding| b@), mac@),
        },
{
    let ghost s = bindings@.map_values(|b: DeviceBinding| b@);
    let n = bindings.len();
    let mut j: usize = 0;
    while j < n
        invariant
            n == bindings@.len(),
            j <= n,
            s == bindings@.map_values(|b: DeviceBinding| b@),
            forall|k: int| 0 <= k < j ==> s[k].mac != mac@,
        decreases n - j,
    {
        if bindings[j].mac == *mac {
            return Some(j);
        }
        j += 1;
    }
    assert(!has_mac(s, mac@));
    None
}

/// One row handed in by the bulk credential importer.
pub struct ImportRow {
    pub id: String,
    pub username: String,
    pub password: String,
}

/// Abstract view of an [`ImportRow`].
pub struct ImportRowV {
    pub id: Seq<char>,
    pub username: Seq<char>,
    pub password: Seq<char>,
}

impl View for ImportRow {
    type V = ImportRowV;

    open spec fn view(&self) -> ImportRowV {
        ImportRowV { id: self.id@, username: self.username@, password: self.password@ }
    }
}

/// Effect of importing one row: the credential row for the identity is
/// created or overwritten, and — since the credentials changed — its
/// synced flag is reset.
pub open spec fn import_one(c: Seq<CredentialV>, row: ImportRowV) -> Seq<CredentialV> {
    let new = CredentialV {
        id: row.id,
        username: row.username,
        password: row.password,
        synced: false,
    };
    if has_id(c, row.id) {
        c.update(id_index(c, row.id), new)
    } else {
        c.push(new)
    }
}

/// Effect of importing a batch, row by row in order.
pub open spec fn import_all(c: Seq<CredentialV>, rows: Seq<ImportRowV>) -> Seq<CredentialV>
    decreases rows.len(),
{
    if rows.len() == 0 {
        c
    } else {
        import_one(import_all(c, rows.drop_last()), rows.last())
    }
}

/// Bulk importer: upserts each credential row in order, resetting the
/// synced flag of every imported identity. The identity registry is
/// untouched.
pub fn import_credentials(reg: &mut Registry, rows: &Vec<ImportRow>)
    requires
        old(reg).wf(),
    ensures
        final(reg).wf(),
        final(reg).bv() == old(reg).bv(),
        final(reg).cv() == import_all(old(reg).cv(), rows@.map_values(|r: ImportRow| r@)),
{
    let ghost rv = rows@.map_values(|r: ImportRow| r@);
    let n = rows.len();
    let mut k: usize = 0;
    while k < n
        invariant
            n == rows@.len(),
            k <= n,
            rv == rows@.map_values(|r: ImportRow| r@),
            reg.bv() == old(reg).bv(),
            reg.cv() == import_all(old(reg).cv(), rv.take(k as int)),
            distinct_ids(reg.cv()),
            distinct_macs(reg.bv()),
        decreases n - k,
    {
        proof {
            assert(rv[k as int] == rows@[k as int]@);
            assert(rv.take(k + 1int).drop_last() =~= rv.take(k as int));
            assert(rv.take(k + 1int).last() == rv[k as int]);
        }
        let src = &rows[k];
        let row = Credential {
            id: copy_string(&src.id),
            username: copy_string(&src.username),
            password: copy_string(&src.password),
            synced: false,
        };
        let ghost before = reg.cv();
        match find_credential(&reg.credentials, &src.id) {
            Some(i) => {
                proof {
                    assert(before[i as int].id == rv[k as int].id);
                    assert(has_id(before, rv[k as int].id));
                    lemma_id_index(before, i as int);
                }
                reg.credentials.set(i, row);
                proof {
                    assert(reg.cv() =~= import_one(before, rv[k as int]));
                    assert(distinct_ids(reg.cv()));
                }
            },
            None => {
                reg.credentials.push(row);
                proof {
                    assert(reg.cv() =~= import_one(before, rv[k as int]));
                    assert(distinct_ids(reg.cv()));
                }
            },
        }
        k += 1;
    }
    proof {
        assert(rv.take(n as int) =~= rv);
    }
}

/// Copies a string; the copy reads the same.
fn copy_string(s: &String) -> (r: String)
    ensures
        r@ == s@,
{
    String::from_str(s.as_str())
}

/// Locates the credential row for an identity, if any.
pub fn find_credential(credentials: &Vec<Credential>, id: &String) -> (r: Option<usize>)
    ensures
        match r {
            Some(i) => i < credentials@.len() && credentials@[i as int]@.id == id@,
            None => !has_id(credentials@.map_values(|c: Credential| c@), id@),
        },
{
    let ghost s = credentials@.map_values(|c: Credential| c@);
    let n = credentials.len();
    let mut j: usize = 0;
    while j < n
        invariant
            n == credentials@.len(),
            j <= n,
            s == credentials@.map_values(|c: Credential| c@),
            forall|k: int| 0 <= k < j ==> s[k].id != id@,
        decreases n - j,
    {
        if credentials[j].id == *id {
            return Some(j);
        }
        j += 1;
    }
    assert(!has_id(s, id@));
    None
}

} // verus!
