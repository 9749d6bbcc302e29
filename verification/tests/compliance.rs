use rwa_contracts::address::{Address, AddressKind};
use rwa_contracts::compliance::{
    jurisdiction_code, normalize, ComplianceContract, ComplianceStatus, Error, VERSION,
};

fn addr(n: u8) -> Address {
    Address { kind: AddressKind::Account, key: [n; 32] }
}

fn text(s: &str) -> Vec<u8> {
    s.as_bytes().to_vec()
}

fn setup() -> (ComplianceContract, Address) {
    let mut c = ComplianceContract::new();
    let admin = addr(1);
    c.initialize(admin).unwrap();
    (c, admin)
}

#[test]
fn test_initialize_sets_admin() {
    let (client, admin) = setup();
    assert_eq!(client.get_admin(), Ok(admin));
    assert_eq!(client.get_allowlist().len(), 0);
}

#[test]
fn test_version() {
    let (client, _admin) = setup();
    assert_eq!(client.version(), VERSION);
}

#[test]
fn test_double_initialize_fails() {
    let (mut client, _admin) = setup();
    let other = addr(2);
    assert_eq!(client.initialize(other), Err(Error::AlreadyInitialized));
}

#[test]
fn test_add_to_allowlist_is_allowed() {
    let (mut client, admin) = setup();
    let user = addr(10);
    client.add_to_allowlist(admin, user, &text("US"), 0, 0).unwrap();
    assert!(client.is_allowed(user, 0));
    assert_eq!(client.get_allowlist().len(), 1);
}

#[test]
fn test_unknown_address_not_allowed() {
    let (client, _admin) = setup();
    let stranger = addr(11);
    assert!(!client.is_allowed(stranger, 0));
    assert!(client.get_record(stranger).is_none());
}

#[test]
fn test_get_record_fields() {
    let (mut client, admin) = setup();
    let user = addr(10);
    client.add_to_allowlist(admin, user, &text("KE"), 1000, 0).unwrap();
    let rec = client.get_record(user).unwrap();
    assert_eq!(rec.address, user);
    assert_eq!(rec.status, ComplianceStatus::Approved);
    assert_eq!(rec.jurisdiction, *b"KE");
    assert_eq!(rec.expires_at, 1000);
}

#[test]
fn test_suspend_blocks_transfer() {
    let (mut client, admin) = setup();
    let user = addr(10);
    client.add_to_allowlist(admin, user, &text("US"), 0, 0).unwrap();
    assert!(client.is_allowed(user, 0));
    client.suspend(admin, user).unwrap();
    assert!(!client.is_allowed(user, 0));
    assert_eq!(client.get_record(user).unwrap().status, ComplianceStatus::Suspended);
}

#[test]
fn test_remove_clears_record() {
    let (mut client, admin) = setup();
    let user = addr(10);
    client.add_to_allowlist(admin, user, &text("US"), 0, 0).unwrap();
    client.remove(admin, user).unwrap();
    assert!(!client.is_allowed(user, 0));
    assert!(client.get_record(user).is_none());
    assert_eq!(client.get_allowlist().len(), 0);
}

#[test]
fn test_expired_kyc_not_allowed() {
    let (mut client, admin) = setup();
    let user = addr(10);
    client.add_to_allowlist(admin, user, &text("US"), 100, 10).unwrap();
    assert!(client.is_allowed(user, 10));
    assert!(!client.is_allowed(user, 101));
}

#[test]
fn test_block_jurisdiction_denies_approved() {
    let (mut client, admin) = setup();
    let user = addr(10);
    let ir = text("IR");
    client.add_to_allowlist(admin, user, &ir, 0, 0).unwrap();
    assert!(client.is_allowed(user, 0));
    client.block_jurisdiction(admin, &ir).unwrap();
    assert!(client.is_jurisdiction_blocked(&ir));
    assert!(!client.is_allowed(user, 0));
}

#[test]
fn test_unblock_jurisdiction_restores() {
    let (mut client, admin) = setup();
    let user = addr(10);
    let ir = text("IR");
    client.add_to_allowlist(admin, user, &ir, 0, 0).unwrap();
    client.block_jurisdiction(admin, &ir).unwrap();
    assert!(!client.is_allowed(user, 0));
    client.unblock_jurisdiction(admin, &ir).unwrap();
    assert!(!client.is_jurisdiction_blocked(&ir));
    assert!(client.is_allowed(user, 0));
}

#[test]
fn test_non_admin_rejected() {
    let (mut client, _admin) = setup();
    let impostor = addr(66);
    let user = addr(10);
    assert_eq!(
        client.add_to_allowlist(impostor, user, &text("US"), 0, 0),
        Err(Error::Unauthorized)
    );
}

#[test]
fn test_expiry_in_past_rejected() {
    let (mut client, admin) = setup();
    let user = addr(10);
    assert_eq!(
        client.add_to_allowlist(admin, user, &text("US"), 100, 500),
        Err(Error::InvalidExpiry)
    );
}

#[test]
fn test_non_admin_add_to_allowlist_is_unauthorized() {
    let mut client = ComplianceContract::new();
    let admin = addr(1);
    client.initialize(admin).unwrap();
    let non_admin = addr(2);
    let user = addr(10);
    assert_eq!(
        client.add_to_allowlist(non_admin, user, &text("US"), 0, 0),
        Err(Error::Unauthorized)
    );
}

#[test]
fn test_suspend_missing_record_rejected() {
    let (mut client, admin) = setup();
    let ghost = addr(99);
    assert_eq!(client.suspend(admin, ghost), Err(Error::RecordNotFound));
}

#[test]
fn test_get_admin_before_init_panics_not_initialized() {
    let client = ComplianceContract::new();
    assert_eq!(client.get_admin(), Err(Error::NotInitialized));
}

#[test]
fn test_invalid_jurisdiction_rejected() {
    let (mut client, admin) = setup();
    let user = addr(10);
    assert_eq!(
        client.add_to_allowlist(admin, user, &text("United States"), 0, 0),
        Err(Error::InvalidJurisdiction)
    );
}

#[test]
fn test_empty_jurisdiction_rejected() {
    let (mut client, admin) = setup();
    let user = addr(10);
    assert_eq!(
        client.add_to_allowlist(admin, user, &text(""), 0, 0),
        Err(Error::InvalidJurisdiction)
    );
}

#[test]
fn test_single_char_jurisdiction_rejected() {
    let (mut client, admin) = setup();
    let user = addr(10);
    assert_eq!(
        client.add_to_allowlist(admin, user, &text("U"), 0, 0),
        Err(Error::InvalidJurisdiction)
    );
}

#[test]
fn test_lowercase_jurisdiction_normalized() {
    let (mut client, admin) = setup();
    let user = addr(10);
    client.add_to_allowlist(admin, user, &text("us"), 0, 0).unwrap();
    assert!(client.is_allowed(user, 0));
    assert_eq!(client.get_record(user).unwrap().jurisdiction, *b"US");
}

#[test]
fn test_get_record_unknown_address_returns_none() {
    let (client, _admin) = setup();
    let unknown = addr(77);
    assert_eq!(client.get_record(unknown), None);
}

#[test]
fn test_add_to_allowlist_rejects_expiry_at_or_before_now() {
    let (mut client, admin) = setup();
    let user = addr(10);
    let us = text("US");
    // expires_at == now.
    assert!(matches!(
        client.add_to_allowlist(admin, user, &us, 500, 500),
        Err(Error::InvalidExpiry)
    ));
    // expires_at < now.
    assert!(matches!(
        client.add_to_allowlist(admin, user, &us, 100, 500),
        Err(Error::InvalidExpiry)
    ));
}

#[test]
fn test_add_to_allowlist_accepts_zero_expiry_as_never_expires() {
    let (mut client, admin) = setup();
    let user = addr(10);
    assert!(client.add_to_allowlist(admin, user, &text("US"), 0, 500).is_ok());
    assert!(client.is_allowed(user, 500));
}

#[test]
fn test_admin_only_entry_points_reject_non_admin() {
    let (mut client, admin) = setup();
    let non_admin = addr(2);
    let user = addr(10);
    let us = text("US");
    client.add_to_allowlist(admin, user, &us, 0, 0).unwrap();

    assert!(
        matches!(client.add_to_allowlist(non_admin, user, &us, 0, 0), Err(Error::Unauthorized)),
        "{} should reject a non-admin caller with Unauthorized",
        "add_to_allowlist"
    );
    assert!(
        matches!(client.suspend(non_admin, user), Err(Error::Unauthorized)),
        "{} should reject a non-admin caller with Unauthorized",
        "suspend"
    );
    assert!(
        matches!(client.remove(non_admin, user), Err(Error::Unauthorized)),
        "{} should reject a non-admin caller with Unauthorized",
        "remove"
    );
    assert!(
        matches!(client.block_jurisdiction(non_admin, &us), Err(Error::Unauthorized)),
        "{} should reject a non-admin caller with Unauthorized",
        "block_jurisdiction"
    );
    assert!(
        matches!(client.unblock_jurisdiction(non_admin, &us), Err(Error::Unauthorized)),
        "{} should reject a non-admin caller with Unauthorized",
        "unblock_jurisdiction"
    );
    assert!(
        matches!(client.prune_expired(non_admin, 0), Err(Error::Unauthorized)),
        "{} should reject a non-admin caller with Unauthorized",
        "prune_expired"
    );
}

#[test]
fn test_block_jurisdiction_matching_is_case_insensitive() {
    let (mut client, admin) = setup();
    let user = addr(10);
    client.add_to_allowlist(admin, user, &text("us"), 0, 0).unwrap();
    assert!(client.is_allowed(user, 0));
    client.block_jurisdiction(admin, &text("US")).unwrap();
    assert!(client.is_jurisdiction_blocked(&text("us")));
    assert!(!client.is_allowed(user, 0));
}

// ---- further cases ----

#[test]
fn normalize_trims_ends_and_uppercases() {
    assert_eq!(normalize(&text(" us\t")), text("US"));
    assert_eq!(normalize(&text(" US ")), text("US"));
    assert_eq!(normalize(&text("Gb")), text("GB"));
    assert_eq!(normalize(&text("   ")), text(""));
    // Whitespace inside a code is kept.
    assert_eq!(normalize(&text(" u s ")), text("U S"));
    assert_eq!(normalize(&text("x1 y")), text("X1 Y"));
    assert_eq!(jurisdiction_code(&text(" ke ")), Ok(*b"KE"));
    assert_eq!(jurisdiction_code(&text("U S")), Err(Error::InvalidJurisdiction));
    assert_eq!(jurisdiction_code(&text("U\tS")), Err(Error::InvalidJurisdiction));
    assert_eq!(jurisdiction_code(&text("K1")), Err(Error::InvalidJurisdiction));
    assert_eq!(jurisdiction_code(&text("ZZ")), Ok(*b"ZZ"));
}

#[test]
fn add_returns_previous_record_and_reapproval_reinstates() {
    let (mut client, admin) = setup();
    let user = addr(10);
    assert_eq!(client.add_to_allowlist(admin, user, &text("US"), 0, 5), Ok(None));
    client.suspend(admin, user).unwrap();
    let prev = client.add_to_allowlist(admin, user, &text("de"), 900, 7).unwrap().unwrap();
    assert_eq!(prev.status, ComplianceStatus::Suspended);
    assert_eq!(prev.jurisdiction, *b"US");
    assert_eq!(prev.verified_at, 5);
    let rec = client.get_record(user).unwrap();
    assert_eq!(rec.status, ComplianceStatus::Approved);
    assert_eq!(rec.jurisdiction, *b"DE");
    assert_eq!(rec.verified_at, 7);
    assert_eq!(rec.expires_at, 900);
    // Re-approval does not list the address twice.
    assert_eq!(client.get_allowlist(), vec![user]);
    assert!(client.is_allowed(user, 899));
    assert!(!client.is_allowed(user, 900));
}

#[test]
fn remove_missing_record_rejected() {
    let (mut client, admin) = setup();
    assert_eq!(client.remove(admin, addr(42)), Err(Error::RecordNotFound));
}

#[test]
fn calls_before_initialize_fail_not_initialized() {
    let mut client = ComplianceContract::new();
    let a = addr(1);
    assert_eq!(
        client.add_to_allowlist(a, a, &text("US"), 0, 0),
        Err(Error::NotInitialized)
    );
    assert_eq!(client.block_jurisdiction(a, &text("US")), Err(Error::NotInitialized));
    assert_eq!(client.prune_expired(a, 0), Err(Error::NotInitialized));
}

#[test]
fn get_allowed_lists_only_passing_addresses() {
    let (mut client, admin) = setup();
    let a = addr(10);
    let b = addr(11);
    let c = addr(12);
    let d = addr(13);
    client.add_to_allowlist(admin, a, &text("US"), 0, 0).unwrap();
    client.add_to_allowlist(admin, b, &text("FR"), 50, 0).unwrap();
    client.add_to_allowlist(admin, c, &text("IR"), 0, 0).unwrap();
    client.add_to_allowlist(admin, d, &text("US"), 0, 0).unwrap();
    client.block_jurisdiction(admin, &text("ir")).unwrap();
    client.suspend(admin, d).unwrap();
    assert_eq!(client.get_allowed(10), vec![a, b]);
    assert_eq!(client.get_allowed(60), vec![a]);
    assert_eq!(client.get_allowlist(), vec![a, b, c, d]);
}

#[test]
fn prune_expired_drops_only_expired_records() {
    let (mut client, admin) = setup();
    let a = addr(10);
    let b = addr(11);
    let c = addr(12);
    client.add_to_allowlist(admin, a, &text("US"), 100, 0).unwrap();
    client.add_to_allowlist(admin, b, &text("US"), 0, 0).unwrap();
    client.add_to_allowlist(admin, c, &text("US"), 300, 0).unwrap();
    assert_eq!(client.prune_expired(admin, 200), Ok(vec![a]));
    assert_eq!(client.get_allowlist(), vec![b, c]);
    assert!(client.get_record(a).is_none());
    assert!(client.get_record(c).is_some());
    assert_eq!(client.prune_expired(admin, 300), Ok(vec![c]));
    assert_eq!(client.get_allowlist(), vec![b]);
}

#[test]
fn unblock_of_invalid_code_rejected() {
    let (mut client, admin) = setup();
    assert_eq!(
        client.unblock_jurisdiction(admin, &text("USA")),
        Err(Error::InvalidJurisdiction)
    );
    assert!(!client.is_jurisdiction_blocked(&text("USA")));
}
