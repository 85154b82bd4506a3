use natsume::services::{
    bind_device, bind_device_now, lookup_identity, report_device, report_device_now,
    status_report, sync_credentials, unbind_device, BindError, BindOutcome, SyncError,
    UnbindError,
};
use natsume::store::{import_credentials, ImportRow, Registry};

fn s(x: &str) -> String {
    String::from(x)
}

fn preload(reg: &mut Registry, id: &str, username: &str, password: &str) {
    let rows = vec![ImportRow { id: s(id), username: s(username), password: s(password) }];
    import_credentials(reg, &rows);
}

#[test]
fn bind_new_device() {
    let mut reg = Registry::new();
    let r = bind_device(&mut reg, true, false, &s("aa:bb:cc:dd:ee:ff"), &s("c1"), &s("10.0.0.9"), &s("1.0"), 100);
    assert_eq!(r, Ok(BindOutcome::Created));
    let found = lookup_identity(&reg, &s("aa:bb:cc:dd:ee:ff"));
    assert_eq!(found.as_deref(), Some("c1"));
}

#[test]
fn rebind_blocked() {
    let mut reg = Registry::new();
    bind_device(&mut reg, true, false, &s("aa:bb:cc:dd:ee:ff"), &s("c1"), &s("10.0.0.9"), &s("1.0"), 100).unwrap();
    let r = bind_device(&mut reg, true, false, &s("aa:bb:cc:dd:ee:ff"), &s("c2"), &s("10.0.0.9"), &s("1.0"), 101);
    assert_eq!(r, Err(BindError::RebindBlocked));
    // The rebind policy gates the write path unconditionally, even for
    // an unchanged identity.
    let same = bind_device(&mut reg, true, false, &s("aa:bb:cc:dd:ee:ff"), &s("c1"), &s("10.0.0.9"), &s("1.0"), 102);
    assert_eq!(same, Err(BindError::RebindBlocked));
    assert_eq!(lookup_identity(&reg, &s("aa:bb:cc:dd:ee:ff")).as_deref(), Some("c1"));
}

#[test]
fn rebind_allowed_overwrites() {
    let mut reg = Registry::new();
    bind_device(&mut reg, true, true, &s("aa:bb:cc:dd:ee:ff"), &s("c1"), &s("10.0.0.9"), &s("1.0"), 100).unwrap();
    let r = bind_device(&mut reg, true, true, &s("aa:bb:cc:dd:ee:ff"), &s("c2"), &s("10.0.0.7"), &s("1.1"), 200);
    assert_eq!(r, Ok(BindOutcome::Updated));
    assert_eq!(lookup_identity(&reg, &s("aa:bb:cc:dd:ee:ff")).as_deref(), Some("c2"));
    let st = status_report(&reg);
    assert_eq!(st.bind_count, 1);
}

#[test]
fn bind_disabled_rejected() {
    let mut reg = Registry::new();
    let r = bind_device(&mut reg, false, true, &s("aa:bb:cc:dd:ee:ff"), &s("c1"), &s("10.0.0.9"), &s("1.0"), 100);
    assert_eq!(r, Err(BindError::FeatureDisabled));
    assert_eq!(status_report(&reg).bind_count, 0);
}

#[test]
fn unknown_heartbeat_creates_sentinel() {
    let mut reg = Registry::new();
    report_device(&mut reg, &s("11:22:33:44:55:66"), false, &s("10.0.0.3"), &s("1.0"), 500);
    assert_eq!(lookup_identity(&reg, &s("11:22:33:44:55:66")).as_deref(), Some("UNKNOWN"));
    assert_eq!(status_report(&reg).bind_count, 1);
}

#[test]
fn heartbeat_refreshes_metadata() {
    let mut reg = Registry::new();
    bind_device(&mut reg, true, false, &s("aa:bb:cc:dd:ee:ff"), &s("c1"), &s("10.0.0.9"), &s("1.0"), 100).unwrap();
    report_device(&mut reg, &s("aa:bb:cc:dd:ee:ff"), false, &s("10.0.0.4"), &s("1.2"), 900);
    assert_eq!(lookup_identity(&reg, &s("aa:bb:cc:dd:ee:ff")).as_deref(), Some("c1"));
    let st = status_report(&reg);
    assert_eq!(st.bind_count, 1);
    assert_eq!(st.infos[0].ip.as_deref(), Some("10.0.0.4"));
    assert_eq!(st.infos[0].client_version.as_deref(), Some("1.2"));
    assert_eq!(st.infos[0].last_seen, Some(900));
}

#[test]
fn successful_sync() {
    let mut reg = Registry::new();
    preload(&mut reg, "c1", "u1", "p1");
    bind_device(&mut reg, true, false, &s("aa:bb:cc:dd:ee:ff"), &s("c1"), &s("10.0.0.9"), &s("1.0"), 100).unwrap();
    let info = sync_credentials(&reg, true, &s("aa:bb:cc:dd:ee:ff")).unwrap();
    assert_eq!(info.username, "u1");
    assert_eq!(info.password, "p1");
}

#[test]
fn sync_is_idempotent() {
    let mut reg = Registry::new();
    preload(&mut reg, "c1", "u1", "p1");
    bind_device(&mut reg, true, false, &s("aa:bb:cc:dd:ee:ff"), &s("c1"), &s("10.0.0.9"), &s("1.0"), 100).unwrap();
    let before = status_report(&reg);
    let first = sync_credentials(&reg, true, &s("aa:bb:cc:dd:ee:ff")).unwrap();
    let second = sync_credentials(&reg, true, &s("aa:bb:cc:dd:ee:ff")).unwrap();
    assert_eq!(first.username, second.username);
    assert_eq!(first.password, second.password);
    let after = status_report(&reg);
    assert_eq!(before.bind_count, after.bind_count);
    assert_eq!(before.info_count, after.info_count);
    assert_eq!(before.sync_count, after.sync_count);
    // Credential delivery never touches the synced flag.
    assert_eq!(after.sync_count, 0);
}

#[test]
fn sync_errors_told_apart() {
    let mut reg = Registry::new();
    assert_eq!(sync_credentials(&reg, false, &s("aa:bb")), Err(SyncError::FeatureDisabled));
    assert_eq!(sync_credentials(&reg, true, &s("aa:bb")), Err(SyncError::Unbound));
    bind_device(&mut reg, true, false, &s("aa:bb"), &s("c9"), &s("10.0.0.9"), &s("1.0"), 100).unwrap();
    assert_eq!(sync_credentials(&reg, true, &s("aa:bb")), Err(SyncError::MissingCredential));
}

#[test]
fn heartbeat_confirms_sync() {
    let mut reg = Registry::new();
    preload(&mut reg, "c1", "u1", "p1");
    bind_device(&mut reg, true, false, &s("aa:bb:cc:dd:ee:ff"), &s("c1"), &s("10.0.0.9"), &s("1.0"), 100).unwrap();
    sync_credentials(&reg, true, &s("aa:bb:cc:dd:ee:ff")).unwrap();
    let before = status_report(&reg);
    assert_eq!(before.sync_count, 0);
    report_device(&mut reg, &s("aa:bb:cc:dd:ee:ff"), true, &s("10.0.0.9"), &s("1.0"), 101);
    let after = status_report(&reg);
    assert_eq!(after.sync_count, before.sync_count + 1);
    assert_eq!(after.infos[0].synced, Some(true));
}

#[test]
fn sentinel_heartbeat_sets_no_flag() {
    let mut reg = Registry::new();
    preload(&mut reg, "c1", "u1", "p1");
    // A confirming heartbeat from an unseen address creates the
    // sentinel row but flips no credential.
    report_device(&mut reg, &s("11:22:33:44:55:66"), true, &s("10.0.0.3"), &s("1.0"), 500);
    let st = status_report(&reg);
    assert_eq!(st.bind_count, 1);
    assert_eq!(st.sync_count, 0);
}

#[test]
fn status_counts_and_listing() {
    let mut reg = Registry::new();
    preload(&mut reg, "c1", "u1", "p1");
    preload(&mut reg, "c2", "u2", "p2");
    bind_device(&mut reg, true, false, &s("aa:aa"), &s("c1"), &s("10.0.0.1"), &s("1.0"), 100).unwrap();
    report_device(&mut reg, &s("bb:bb"), false, &s("10.0.0.2"), &s("1.0"), 200);
    report_device(&mut reg, &s("aa:aa"), true, &s("10.0.0.1"), &s("1.0"), 300);
    let st = status_report(&reg);
    assert_eq!(st.bind_count, 2);
    assert_eq!(st.info_count, 2);
    assert_eq!(st.sync_count, 1);
    assert_eq!(st.notsync_count, 1);
    // Listing: both bindings in order, then the unclaimed credential.
    assert_eq!(st.infos.len(), 3);
    assert_eq!(st.infos[0].mac.as_deref(), Some("aa:aa"));
    assert_eq!(st.infos[0].id, "c1");
    assert_eq!(st.infos[0].username.as_deref(), Some("u1"));
    assert_eq!(st.infos[0].synced, Some(true));
    assert_eq!(st.infos[1].mac.as_deref(), Some("bb:bb"));
    assert_eq!(st.infos[1].id, "UNKNOWN");
    assert_eq!(st.infos[1].username, None);
    assert_eq!(st.infos[1].synced, None);
    assert_eq!(st.infos[2].mac, None);
    assert_eq!(st.infos[2].id, "c2");
    assert_eq!(st.infos[2].username.as_deref(), Some("u2"));
    assert_eq!(st.infos[2].synced, Some(false));
}

#[test]
fn unbind_deletes_and_reports_missing() {
    let mut reg = Registry::new();
    bind_device(&mut reg, true, false, &s("aa:aa"), &s("c1"), &s("10.0.0.1"), &s("1.0"), 100).unwrap();
    assert_eq!(unbind_device(&mut reg, &s("cc:cc")), Err(UnbindError::NotFound));
    assert_eq!(unbind_device(&mut reg, &s("aa:aa")), Ok(()));
    assert_eq!(lookup_identity(&reg, &s("aa:aa")), None);
    assert_eq!(unbind_device(&mut reg, &s("aa:aa")), Err(UnbindError::NotFound));
}

#[test]
fn timestamped_entry_points() {
    let mut reg = Registry::new();
    let r = bind_device_now(&mut reg, true, false, &s("aa:aa"), &s("c1"), &s("10.0.0.1"), &s("1.0"));
    assert_eq!(r, Ok(BindOutcome::Created));
    report_device_now(&mut reg, &s("bb:bb"), false, &s("10.0.0.2"), &s("1.0"));
    assert_eq!(lookup_identity(&reg, &s("aa:aa")).as_deref(), Some("c1"));
    assert_eq!(lookup_identity(&reg, &s("bb:bb")).as_deref(), Some("UNKNOWN"));
    assert_eq!(status_report(&reg).bind_count, 2);
}

#[test]
fn empty_registry_status() {
    let reg = Registry::new();
    let st = status_report(&reg);
    assert_eq!(st.bind_count, 0);
    assert_eq!(st.info_count, 0);
    assert_eq!(st.sync_count, 0);
    assert_eq!(st.notsync_count, 0);
    assert!(st.infos.is_empty());
}

#[test]
fn import_overwrites_and_resets_synced() {
    let mut reg = Registry::new();
    preload(&mut reg, "c1", "u1", "p1");
    bind_device(&mut reg, true, false, &s("aa:aa"), &s("c1"), &s("10.0.0.1"), &s("1.0"), 100).unwrap();
    report_device(&mut reg, &s("aa:aa"), true, &s("10.0.0.1"), &s("1.0"), 200);
    assert_eq!(status_report(&reg).sync_count, 1);
    // The importer overwrites the credentials and resets the flag.
    preload(&mut reg, "c1", "u1b", "p1b");
    let st = status_report(&reg);
    assert_eq!(st.info_count, 1);
    assert_eq!(st.sync_count, 0);
    let info = sync_credentials(&reg, true, &s("aa:aa")).unwrap();
    assert_eq!(info.username, "u1b");
    assert_eq!(info.password, "p1b");
}
