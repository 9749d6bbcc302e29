use rwa_contracts::address::{Address, AddressKind};
use rwa_contracts::asset_token::{AssetTokenContract, Error, UPGRADE_TIMELOCK_LEDGERS, VERSION};
use rwa_contracts::compliance::ComplianceContract;

const NOW: u32 = 0;

fn addr(n: u8) -> Address {
    Address { kind: AddressKind::Account, key: [n; 32] }
}

fn contract(n: u8) -> Address {
    Address { kind: AddressKind::Contract, key: [n; 32] }
}

fn text(s: &str) -> Vec<u8> {
    s.as_bytes().to_vec()
}

struct Setup {
    token: AssetTokenContract,
    compliance: ComplianceContract,
    compliance_id: Address,
    admin: Address,
}

impl Setup {
    /// The compliance contract's answer for `who`, as the token asks for it.
    fn ok(&self, who: Address) -> bool {
        self.compliance.is_allowed(who, NOW)
    }

    fn transfer(&mut self, from: Address, to: Address, amount: i128) -> Result<(i128, i128), Error> {
        let (f, t) = (self.ok(from), self.ok(to));
        self.token.transfer(from, to, amount, f, t)
    }

    fn mint(&mut self, admin: Address, to: Address, amount: i128) -> Result<(), Error> {
        let t = self.ok(to);
        self.token.mint(admin, to, amount, t)
    }

    fn burn(&mut self, from: Address, amount: i128) -> Result<(), Error> {
        let f = self.ok(from);
        self.token.burn(from, amount, f)
    }
}

fn approve(compliance: &mut ComplianceContract, admin: Address, who: Address) {
    compliance.add_to_allowlist(admin, who, &text("US"), 0, NOW).unwrap();
}

fn init_token(
    token: &mut AssetTokenContract,
    compliance: &ComplianceContract,
    compliance_id: Address,
    admin: Address,
    supply: i128,
    valuation: i128,
) -> Result<(), Error> {
    token.initialize(
        admin,
        text("Manhattan Loft"),
        text("MLOFT"),
        text("real_estate"),
        supply,
        2,
        compliance_id,
        text("A tokenized NYC loft"),
        valuation,
        compliance.is_allowed(admin, NOW),
    )
}

fn setup(supply: i128) -> Setup {
    let compliance_id = contract(200);
    let mut compliance = ComplianceContract::new();
    let admin = addr(1);
    compliance.initialize(admin).unwrap();
    approve(&mut compliance, admin, admin);
    let mut token = AssetTokenContract::new();
    init_token(&mut token, &compliance, compliance_id, admin, supply, 50_000_000).unwrap();
    Setup { token, compliance, compliance_id, admin }
}

#[test]
fn test_initialize_mints_full_supply_to_admin() {
    let s = setup(1_000);
    assert_eq!(s.token.balance(s.admin), 1_000);
    assert_eq!(s.token.total_supply(), Ok(1_000));
    let meta = s.token.get_metadata().unwrap();
    assert_eq!(meta.symbol, text("MLOFT"));
    assert_eq!(meta.valuation, 50_000_000);
    assert!(!meta.paused);
}

#[test]
fn test_transfer_between_approved() {
    let mut s = setup(1_000);
    let bob = addr(2);
    approve(&mut s.compliance, s.admin, bob);
    s.transfer(s.admin, bob, 400).unwrap();
    assert_eq!(s.token.balance(s.admin), 600);
    assert_eq!(s.token.balance(bob), 400);
}

#[test]
fn test_transfer_blocked_when_sender_not_compliant() {
    let mut s = setup(1_000);
    let bob = addr(2);
    approve(&mut s.compliance, s.admin, bob);
    s.transfer(s.admin, bob, 500).unwrap();
    s.compliance.remove(s.admin, bob).unwrap();
    let carol = addr(3);
    approve(&mut s.compliance, s.admin, carol);
    assert_eq!(s.transfer(bob, carol, 100), Err(Error::SenderNotCompliant));
}

#[test]
fn test_transfer_blocked_when_recipient_not_compliant() {
    let mut s = setup(1_000);
    let carol = addr(3);
    assert_eq!(s.transfer(s.admin, carol, 100), Err(Error::RecipientNotCompliant));
}

#[test]
fn test_transfer_blocked_when_paused() {
    let mut s = setup(1_000);
    let bob = addr(2);
    approve(&mut s.compliance, s.admin, bob);
    s.token.pause(s.admin).unwrap();
    assert_eq!(s.transfer(s.admin, bob, 100), Err(Error::Paused));
}

#[test]
fn test_mint_increases_supply() {
    let mut s = setup(1_000);
    let bob = addr(2);
    approve(&mut s.compliance, s.admin, bob);
    s.mint(s.admin, bob, 250).unwrap();
    assert_eq!(s.token.balance(bob), 250);
    assert_eq!(s.token.total_supply(), Ok(1_250));
}

#[test]
fn test_mint_to_noncompliant_fails() {
    let mut s = setup(1_000);
    let carol = addr(3);
    assert_eq!(s.mint(s.admin, carol, 100), Err(Error::RecipientNotCompliant));
}

#[test]
fn test_burn_reduces_supply() {
    let mut s = setup(1_000);
    s.burn(s.admin, 300).unwrap();
    assert_eq!(s.token.balance(s.admin), 700);
    assert_eq!(s.token.total_supply(), Ok(700));
}

#[test]
fn test_insufficient_balance() {
    let mut s = setup(1_000);
    let bob = addr(2);
    approve(&mut s.compliance, s.admin, bob);
    assert_eq!(s.transfer(bob, s.admin, 1), Err(Error::InsufficientBalance));
}

#[test]
fn test_zero_amount_rejected() {
    let mut s = setup(1_000);
    let bob = addr(2);
    approve(&mut s.compliance, s.admin, bob);
    assert_eq!(s.transfer(s.admin, bob, 0), Err(Error::InvalidAmount));
}

#[test]
fn test_negative_amount_rejected() {
    let mut s = setup(1_000);
    let bob = addr(2);
    approve(&mut s.compliance, s.admin, bob);
    assert_eq!(s.transfer(s.admin, bob, -1), Err(Error::InvalidAmount));
}

#[test]
fn test_self_transfer_no_inflation() {
    let mut s = setup(1_000);
    let supply_before = s.token.total_supply();
    let bal_before = s.token.balance(s.admin);
    s.transfer(s.admin, s.admin, 100).unwrap();
    assert_eq!(s.token.balance(s.admin), bal_before);
    assert_eq!(s.token.total_supply(), supply_before);
}

#[test]
fn test_unauthorized_mint_rejected() {
    let mut s = setup(1_000);
    let impostor = addr(66);
    let bob = addr(2);
    approve(&mut s.compliance, s.admin, bob);
    assert_eq!(s.mint(impostor, bob, 100), Err(Error::Unauthorized));
}

#[test]
fn test_pause_then_unpause_restores_transfer() {
    let mut s = setup(1_000);
    let bob = addr(2);
    approve(&mut s.compliance, s.admin, bob);
    s.token.pause(s.admin).unwrap();
    s.token.unpause(s.admin).unwrap();
    s.transfer(s.admin, bob, 100).unwrap();
    assert_eq!(s.token.balance(bob), 100);
}

#[test]
fn test_update_valuation() {
    let mut s = setup(1_000);
    s.token.update_valuation(s.admin, 75_000_000).unwrap();
    assert_eq!(s.token.get_metadata().unwrap().valuation, 75_000_000);
}

#[test]
fn test_burn_more_than_balance_fails() {
    let mut s = setup(1_000);
    assert_eq!(s.burn(s.admin, 2000), Err(Error::InsufficientBalance));
}

#[test]
fn test_initialize_reverts_when_admin_not_compliant() {
    let compliance_id = contract(200);
    let mut compliance = ComplianceContract::new();
    let admin = addr(1);
    compliance.initialize(admin).unwrap();
    let mut token = AssetTokenContract::new();
    assert_eq!(
        init_token(&mut token, &compliance, compliance_id, admin, 1_000, 50_000_000),
        Err(Error::RecipientNotCompliant)
    );
}

#[test]
fn test_initialize_with_negative_total_supply_fails() {
    let compliance_id = contract(200);
    let mut compliance = ComplianceContract::new();
    let admin = addr(1);
    compliance.initialize(admin).unwrap();
    let mut token = AssetTokenContract::new();
    assert_eq!(
        init_token(&mut token, &compliance, compliance_id, admin, -100, 50_000_000),
        Err(Error::InvalidAmount)
    );
}

#[test]
fn test_initialize_with_negative_valuation_fails() {
    let compliance_id = contract(200);
    let mut compliance = ComplianceContract::new();
    let admin = addr(1);
    compliance.initialize(admin).unwrap();
    let mut token = AssetTokenContract::new();
    assert_eq!(
        init_token(&mut token, &compliance, compliance_id, admin, 1_000, -50_000_000),
        Err(Error::InvalidAmount)
    );
}

#[test]
fn test_transfer_to_unapproved_recipient_panics_recipient_not_compliant() {
    let mut s = setup(1_000);
    let eve = addr(5);
    assert_eq!(s.transfer(s.admin, eve, 100), Err(Error::RecipientNotCompliant));
}

#[test]
fn test_transfer_after_sender_suspended_post_mint_panics_sender_not_compliant() {
    let mut s = setup(1_000);
    let bob = addr(2);
    approve(&mut s.compliance, s.admin, bob);
    s.mint(s.admin, bob, 500).unwrap();
    assert_eq!(s.token.balance(bob), 500);
    s.compliance.suspend(s.admin, bob).unwrap();
    let carol = addr(3);
    approve(&mut s.compliance, s.admin, carol);
    assert_eq!(s.transfer(bob, carol, 100), Err(Error::SenderNotCompliant));
}

// ---- further cases ----

#[test]
fn version_and_metadata_surface() {
    let s = setup(1_000);
    assert_eq!(s.token.version(), VERSION);
    assert_eq!(s.token.name(), Ok(text("Manhattan Loft")));
    assert_eq!(s.token.symbol(), Ok(text("MLOFT")));
    assert_eq!(s.token.decimals(), Ok(2));
    let meta = s.token.get_metadata().unwrap();
    assert_eq!(meta.admin, s.admin);
    assert_eq!(meta.compliance_contract, s.compliance_id);
    assert_eq!(meta.asset_type, text("real_estate"));
}

#[test]
fn uninitialized_token_refuses_calls() {
    let mut token = AssetTokenContract::new();
    let a = addr(1);
    assert_eq!(token.total_supply(), Err(Error::NotInitialized));
    assert!(token.get_metadata().is_err());
    assert_eq!(token.transfer(a, addr(2), 5, true, true), Err(Error::NotInitialized));
    assert_eq!(token.mint(a, a, 5, true), Err(Error::NotInitialized));
    assert_eq!(token.pause(a), Err(Error::NotInitialized));
    assert_eq!(token.balance(a), 0);
}

#[test]
fn initialize_twice_rejected() {
    let mut s = setup(1_000);
    let compliance = ComplianceContract::new();
    assert_eq!(
        init_token(&mut s.token, &compliance, s.compliance_id, s.admin, 5, 5),
        Err(Error::AlreadyInitialized)
    );
}

#[test]
fn initialize_rejects_bad_texts() {
    let mut token = AssetTokenContract::new();
    let admin = addr(1);
    let r = token.initialize(
        admin,
        Vec::new(),
        text("SYM"),
        text("invoice"),
        10,
        0,
        contract(9),
        text("d"),
        0,
        true,
    );
    assert_eq!(r, Err(Error::InvalidInput));
    let r = token.initialize(
        admin,
        text("n"),
        vec![b'S'; 17],
        text("invoice"),
        10,
        0,
        contract(9),
        text("d"),
        0,
        true,
    );
    assert_eq!(r, Err(Error::InvalidInput));
    let r = token.initialize(
        admin,
        text("n"),
        vec![b'S'; 16],
        text("invoice"),
        10,
        0,
        contract(9),
        vec![b'd'; 256],
        0,
        true,
    );
    assert_eq!(r, Ok(()));
}

#[test]
fn mint_refused_but_burn_allowed_while_paused() {
    let mut s = setup(1_000);
    s.token.pause(s.admin).unwrap();
    assert_eq!(s.mint(s.admin, s.admin, 10), Err(Error::Paused));
    assert_eq!(s.token.pause(addr(9)), Err(Error::Unauthorized));
    // Redemption keeps working while paused.
    s.burn(s.admin, 10).unwrap();
    assert_eq!(s.token.balance(s.admin), 990);
    assert_eq!(s.token.total_supply(), Ok(990));
}

#[test]
fn burn_by_suspended_holder_refused() {
    let mut s = setup(1_000);
    s.compliance.suspend(s.admin, s.admin).unwrap();
    assert_eq!(s.burn(s.admin, 10), Err(Error::SenderNotCompliant));
}

#[test]
fn mint_overflow_rejected() {
    let mut s = setup(i128::MAX - 5);
    assert_eq!(s.mint(s.admin, s.admin, 6), Err(Error::Overflow));
    s.mint(s.admin, s.admin, 5).unwrap();
    assert_eq!(s.token.total_supply(), Ok(i128::MAX));
}

#[test]
fn update_valuation_rejects_negative_and_non_admin() {
    let mut s = setup(1_000);
    assert_eq!(s.token.update_valuation(s.admin, -1), Err(Error::InvalidAmount));
    assert_eq!(s.token.update_valuation(addr(8), 1), Err(Error::Unauthorized));
}

#[test]
fn set_compliance_requires_new_contract_to_approve_admin() {
    let mut s = setup(1_000);
    let comp2_id = contract(201);
    let mut comp2 = ComplianceContract::new();
    comp2.initialize(s.admin).unwrap();
    let ok = comp2.is_allowed(s.admin, NOW);
    assert_eq!(s.token.set_compliance(s.admin, comp2_id, ok), Err(Error::InvalidCompliance));
    approve(&mut comp2, s.admin, s.admin);
    let ok = comp2.is_allowed(s.admin, NOW);
    s.token.set_compliance(s.admin, comp2_id, ok).unwrap();
    assert_eq!(s.token.get_metadata().unwrap().compliance_contract, comp2_id);
}

#[test]
fn mint_batch_applies_all_or_nothing() {
    let mut s = setup(1_000);
    let bob = addr(2);
    let carol = addr(3);
    approve(&mut s.compliance, s.admin, bob);
    approve(&mut s.compliance, s.admin, carol);
    let batch = vec![
        (bob, 10, s.ok(bob)),
        (carol, 20, s.ok(carol)),
        (bob, 5, s.ok(bob)),
    ];
    s.token.mint_batch(s.admin, &batch).unwrap();
    assert_eq!(s.token.balance(bob), 15);
    assert_eq!(s.token.balance(carol), 20);
    assert_eq!(s.token.total_supply(), Ok(1_035));

    let eve = addr(5);
    let bad = vec![(bob, 10, s.ok(bob)), (eve, 10, s.ok(eve))];
    assert_eq!(s.token.mint_batch(s.admin, &bad), Err(Error::RecipientNotCompliant));
    assert_eq!(s.token.balance(bob), 15);
    assert_eq!(s.token.total_supply(), Ok(1_035));

    let zero = vec![(bob, 0, true)];
    assert_eq!(s.token.mint_batch(s.admin, &zero), Err(Error::InvalidAmount));
    assert_eq!(s.token.mint_batch(addr(9), &batch), Err(Error::Unauthorized));
}

#[test]
fn approvals_and_transfer_from() {
    let mut s = setup(1_000);
    let bob = addr(2);
    let spender = addr(4);
    approve(&mut s.compliance, s.admin, bob);
    assert_eq!(s.token.allowance(s.admin, spender, 10), 0);
    s.token.approve(s.admin, spender, 300, 100, 10).unwrap();
    assert_eq!(s.token.allowance(s.admin, spender, 10), 300);

    let (f, t) = (s.ok(s.admin), s.ok(bob));
    assert_eq!(s.token.transfer_from(spender, s.admin, bob, 200, 10, f, t), Ok((800, 200)));
    assert_eq!(s.token.allowance(s.admin, spender, 10), 100);
    assert_eq!(
        s.token.transfer_from(spender, s.admin, bob, 101, 10, f, t),
        Err(Error::InsufficientAllowance)
    );
    // Past its expiration the approval counts as zero.
    assert_eq!(s.token.allowance(s.admin, spender, 101), 0);
    assert_eq!(
        s.token.transfer_from(spender, s.admin, bob, 1, 101, f, t),
        Err(Error::InsufficientAllowance)
    );
    // burn_from spends the approval and the supply.
    s.token.burn_from(spender, s.admin, 50, 10, f).unwrap();
    assert_eq!(s.token.allowance(s.admin, spender, 10), 50);
    assert_eq!(s.token.balance(s.admin), 750);
    assert_eq!(s.token.total_supply(), Ok(950));
}

#[test]
fn approve_checks() {
    let mut s = setup(1_000);
    let spender = addr(4);
    assert_eq!(s.token.approve(s.admin, spender, -1, 100, 10), Err(Error::InvalidAmount));
    assert_eq!(
        s.token.approve(s.admin, spender, 5, 9, 10),
        Err(Error::InvalidExpirationLedger)
    );
    // Revoking with a zero amount is allowed even with a past expiry.
    s.token.approve(s.admin, spender, 0, 9, 10).unwrap();
    s.token.pause(s.admin).unwrap();
    assert_eq!(s.token.approve(s.admin, spender, 5, 100, 10), Err(Error::Paused));
}

#[test]
fn transfer_from_checks_balance_after_allowance() {
    let mut s = setup(1_000);
    let bob = addr(2);
    let spender = addr(4);
    approve(&mut s.compliance, s.admin, bob);
    s.token.approve(bob, spender, 50, 100, 0).unwrap();
    let (f, t) = (s.ok(bob), s.ok(s.admin));
    assert_eq!(
        s.token.transfer_from(spender, bob, s.admin, 10, 0, f, t),
        Err(Error::InsufficientBalance)
    );
    // The failed call left the approval untouched.
    assert_eq!(s.token.allowance(bob, spender, 0), 50);
}

#[test]
fn upgrade_waits_for_timelock() {
    let mut s = setup(1_000);
    let hash = [7u8; 32];
    assert_eq!(s.token.upgrade(s.admin, 0), Err(Error::NoPendingUpgrade));
    let p = s.token.propose_upgrade(s.admin, hash, 100).unwrap();
    assert_eq!(p.ready_at, 100 + UPGRADE_TIMELOCK_LEDGERS);
    assert_eq!(s.token.get_pending_upgrade(), Some(p));
    assert_eq!(s.token.upgrade(s.admin, 100), Err(Error::UpgradeNotReady));
    assert_eq!(s.token.upgrade(s.admin, p.ready_at), Ok(hash));
    assert_eq!(s.token.get_pending_upgrade(), None);
    assert_eq!(s.token.cancel_upgrade(s.admin), Err(Error::NoPendingUpgrade));
    let p = s.token.propose_upgrade(s.admin, hash, u32::MAX - 1).unwrap();
    assert_eq!(p.ready_at, u32::MAX);
    s.token.cancel_upgrade(s.admin).unwrap();
    assert_eq!(s.token.get_pending_upgrade(), None);
}

#[test]
fn approval_reads_back_up_to_its_expiry_ledger() {
    let mut s = setup(1_000);
    let spender = addr(4);
    s.token.approve(s.admin, spender, 5, 10, 10).unwrap();
    assert_eq!(s.token.allowance(s.admin, spender, 10), 5);
    assert_eq!(s.token.allowance(s.admin, spender, 11), 0);
    s.token.approve(s.admin, spender, 0, 3, 10).unwrap();
    assert_eq!(s.token.allowance(s.admin, spender, 10), 0);
}
