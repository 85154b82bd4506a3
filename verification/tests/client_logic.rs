use natsume::auth::{authenticate, precompute_token, AuthError};
use natsume::client::{
    address_visible, caddy_is_active, check_permission, check_prerequisite, extract_host,
    http_ok, response_error_line, topology_gate, TopologyError,
};
use natsume::netaddr::{mac_query_outcome, mac_resolution_precheck, MacError};

#[test]
fn loopback_targets_refused() {
    assert_eq!(mac_resolution_precheck("localhost"), Err(MacError::InvalidTarget));
    assert_eq!(mac_resolution_precheck("127.0.0.1"), Err(MacError::InvalidTarget));
    assert_eq!(mac_resolution_precheck("127.255.3.7"), Err(MacError::InvalidTarget));
    assert_eq!(mac_resolution_precheck("::1"), Err(MacError::InvalidTarget));
    assert_eq!(mac_resolution_precheck("::0001"), Err(MacError::InvalidTarget));
    assert_eq!(mac_resolution_precheck("0:0:0:0:0:0:0:1"), Err(MacError::InvalidTarget));
}

#[test]
fn compressed_loopback_spellings_refused() {
    assert_eq!(mac_resolution_precheck("0::1"), Err(MacError::InvalidTarget));
    assert_eq!(mac_resolution_precheck("::0:1"), Err(MacError::InvalidTarget));
    assert_eq!(mac_resolution_precheck("0:0::1"), Err(MacError::InvalidTarget));
    assert_eq!(mac_resolution_precheck("0:0:0:0:0:0::1"), Err(MacError::InvalidTarget));
    assert_eq!(mac_resolution_precheck("::0.0.0.1"), Err(MacError::InvalidTarget));
    assert_eq!(mac_resolution_precheck("0::0.0.0.1"), Err(MacError::InvalidTarget));
    assert_eq!(
        mac_resolution_precheck("0:0:0:0:0:0:0.0.0.1"),
        Err(MacError::InvalidTarget)
    );
    assert_eq!(mac_resolution_precheck("0000::0001"), Err(MacError::InvalidTarget));
}

#[test]
fn ordinary_targets_pass_the_precheck() {
    assert_eq!(mac_resolution_precheck("8.8.8.8"), Ok(()));
    assert_eq!(mac_resolution_precheck("128.0.0.1"), Ok(()));
    assert_eq!(mac_resolution_precheck("example.org"), Ok(()));
    assert_eq!(mac_resolution_precheck("1277.0.0.1"), Ok(()));
    assert_eq!(mac_resolution_precheck("127.0.0"), Ok(()));
    assert_eq!(mac_resolution_precheck("127.0.0.0.1"), Ok(()));
    assert_eq!(mac_resolution_precheck("0:0:0:0:0:0:0:2"), Ok(()));
}

#[test]
fn non_loopback_colon_forms_pass_the_precheck() {
    // All zeros, or the one in the wrong place, or not an address at
    // all: none spells the loopback.
    assert_eq!(mac_resolution_precheck("::"), Ok(()));
    assert_eq!(mac_resolution_precheck("0::"), Ok(()));
    assert_eq!(mac_resolution_precheck("1::"), Ok(()));
    assert_eq!(mac_resolution_precheck(":::1"), Ok(()));
    assert_eq!(mac_resolution_precheck("::2"), Ok(()));
    assert_eq!(mac_resolution_precheck("::1:1"), Ok(()));
    assert_eq!(mac_resolution_precheck(":1"), Ok(()));
    assert_eq!(mac_resolution_precheck("1:"), Ok(()));
    // Too many groups beside the compression: not a valid address.
    assert_eq!(mac_resolution_precheck("0:0:0:0:0:0:0::1"), Ok(()));
    assert_eq!(mac_resolution_precheck("::0:0:0:0:0:0:0:1"), Ok(()));
    assert_eq!(mac_resolution_precheck("::0.0.0.2"), Ok(()));
    assert_eq!(mac_resolution_precheck("::0::1"), Ok(()));
}

#[test]
fn mac_query_outcomes() {
    assert_eq!(
        mac_query_outcome(true, "aa:bb:cc:dd:ee:ff\n"),
        Ok(String::from("aa:bb:cc:dd:ee:ff"))
    );
    assert_eq!(mac_query_outcome(true, "  \n"), Err(MacError::ResolutionError));
    assert_eq!(mac_query_outcome(true, ""), Err(MacError::ResolutionError));
    assert_eq!(
        mac_query_outcome(false, "aa:bb:cc:dd:ee:ff\n"),
        Err(MacError::ResolutionError)
    );
}

#[test]
fn caddy_status_decision() {
    assert!(caddy_is_active("active\n"));
    assert!(caddy_is_active("active"));
    assert!(!caddy_is_active("inactive\n"));
    assert!(!caddy_is_active(""));
}

#[test]
fn http_status_decision() {
    assert!(http_ok(200));
    assert!(!http_ok(403));
    assert!(!http_ok(500));
}

#[test]
fn response_error_rendering() {
    assert_eq!(
        response_error_line("403 Forbidden", "Forbidden", "No ID bind to this MAC!"),
        "wrong response code 403 Forbidden, error Forbidden No ID bind to this MAC!"
    );
}

#[test]
fn host_extraction() {
    assert_eq!(extract_host("https://example.com:8443/x").as_deref(), Some("example.com"));
    assert_eq!(extract_host("https://10.0.0.1").as_deref(), Some("10.0.0.1"));
    assert_eq!(extract_host("http://h/x?y").as_deref(), Some("h"));
    assert_eq!(extract_host("no scheme here"), None);
    assert_eq!(extract_host("http://"), None);
    assert_eq!(extract_host("://:80").as_deref(), None);
    assert_eq!(extract_host(""), None);
}

#[test]
fn topology_visibility() {
    let netinfo = "2: eth0 inet 192.168.1.20/24 brd 192.168.1.255";
    assert!(address_visible(netinfo, "192.168.1.20"));
    assert!(!address_visible(netinfo, "10.0.0.1"));
}

#[test]
fn topology_gate_policy() {
    assert_eq!(topology_gate(true, false), Ok(false));
    assert_eq!(topology_gate(true, true), Ok(false));
    assert_eq!(topology_gate(false, true), Ok(true));
    assert_eq!(topology_gate(false, false), Err(TopologyError::Mismatch));
}

#[test]
fn token_precompute_known_vectors() {
    assert_eq!(
        precompute_token(""),
        "e3b0c44298fc1c149afbf4c8996fb92427ae41e4649b934ca495991b7852b855"
    );
    assert_eq!(
        precompute_token("abc"),
        "ba7816bf8f01cfea414140de5dae2223b00361a396177a9cb410ff61f20015ad"
    );
}

#[test]
fn authentication_outcomes() {
    let expected = precompute_token("secret");
    let right = expected.clone();
    let wrong = String::from("wrong");
    assert!(authenticate(Some(&right), &expected).is_ok());
    assert_eq!(
        authenticate(Some(&wrong), &expected).err(),
        Some(AuthError::InvalidToken)
    );
    assert_eq!(authenticate(None, &expected).err(), Some(AuthError::MissingToken));
}

#[test]
fn prerequisites_and_permissions() {
    assert!(check_prerequisite(true, true));
    assert!(!check_prerequisite(true, false));
    assert!(!check_prerequisite(false, true));
    assert!(check_permission(true, true, true, true));
    assert!(!check_permission(true, true, true, false));
    assert!(!check_permission(false, true, true, true));
}
