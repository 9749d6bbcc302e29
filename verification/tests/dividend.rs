use std::collections::HashMap;

use rwa_contracts::address::{Address, AddressKind};
use rwa_contracts::asset_token::AssetTokenContract;
use rwa_contracts::compliance::ComplianceContract;
use rwa_contracts::dividend::{
    proportional_share, DividendContract, Error, SWEEP_DELAY_LEDGERS, VERSION,
};

const NOW: u32 = 0;

fn addr(n: u8) -> Address {
    Address { kind: AddressKind::Account, key: [n; 32] }
}

fn contract(n: u8) -> Address {
    Address { kind: AddressKind::Contract, key: [n; 32] }
}

fn text(s: &str) -> Vec<u8> {
    s.as_bytes().to_vec()
}

/// A payment token: balances moved as the dividend contract asks.
struct PaymentToken {
    balances: HashMap<Address, i128>,
}

impl PaymentToken {
    fn balance(&self, who: &Address) -> i128 {
        *self.balances.get(who).unwrap_or(&0)
    }

    fn transfer(&mut self, from: Address, to: Address, amount: i128) {
        let from_bal = self.balance(&from);
        assert!(from_bal >= amount, "payment token balance too low");
        self.balances.insert(from, from_bal - amount);
        let to_bal = self.balance(&to);
        self.balances.insert(to, to_bal + amount);
    }
}

struct Ctx {
    dividend: DividendContract,
    dividend_id: Address,
    asset: AssetTokenContract,
    asset_id: Address,
    pay: PaymentToken,
    pay_id: Address,
    admin: Address,
    h1: Address,
    h2: Address,
}

impl Ctx {
    /// The holders and balances of the asset token, frozen as a snapshot.
    fn snapshot(&self) -> Vec<(Address, i128)> {
        vec![
            (self.admin, self.asset.balance(self.admin)),
            (self.h1, self.asset.balance(self.h1)),
            (self.h2, self.asset.balance(self.h2)),
        ]
    }

    /// Create and fund a distribution, escrowing the payment as the contract asks.
    fn create(&mut self, admin: Address, total_amount: i128) -> Result<u64, Error> {
        let supply = self.asset.total_supply().unwrap();
        let snapshot = self.snapshot();
        let id = self.dividend.create_distribution(
            admin,
            self.asset_id,
            self.pay_id,
            total_amount,
            snapshot,
            supply,
            NOW,
        )?;
        self.pay.transfer(admin, self.dividend_id, total_amount);
        Ok(id)
    }

    /// Claim and pay out from escrow.
    fn claim(&mut self, id: u64, holder: Address) -> Result<i128, Error> {
        let amount = self.dividend.claim(id, holder)?;
        self.pay.transfer(self.dividend_id, holder, amount);
        Ok(amount)
    }
}

fn setup() -> Ctx {
    let admin = addr(1);
    let h1 = addr(2);
    let h2 = addr(3);
    let mut comp = ComplianceContract::new();
    comp.initialize(admin).unwrap();
    let us = text("US");
    comp.add_to_allowlist(admin, admin, &us, 0, NOW).unwrap();
    comp.add_to_allowlist(admin, h1, &us, 0, NOW).unwrap();
    comp.add_to_allowlist(admin, h2, &us, 0, NOW).unwrap();

    let asset_id = contract(100);
    let mut asset = AssetTokenContract::new();
    asset
        .initialize(
            admin,
            text("Loft"),
            text("LFT"),
            text("real_estate"),
            1000,
            0,
            contract(50),
            text("desc"),
            1000,
            comp.is_allowed(admin, NOW),
        )
        .unwrap();
    asset.transfer(admin, h1, 300, comp.is_allowed(admin, NOW), comp.is_allowed(h1, NOW)).unwrap();
    asset.transfer(admin, h2, 200, comp.is_allowed(admin, NOW), comp.is_allowed(h2, NOW)).unwrap();

    let mut pay = PaymentToken { balances: HashMap::new() };
    pay.balances.insert(admin, 100_000);

    let mut dividend = DividendContract::new();
    dividend.initialize(admin).unwrap();

    Ctx {
        dividend,
        dividend_id: contract(102),
        asset,
        asset_id,
        pay,
        pay_id: contract(101),
        admin,
        h1,
        h2,
    }
}

#[test]
fn test_initialize_admin() {
    let ctx = setup();
    assert_eq!(ctx.dividend.get_admin(), Ok(ctx.admin));
}

#[test]
fn test_test_version() {
    let ctx = setup();
    assert_eq!(ctx.dividend.version(), VERSION);
}

#[test]
fn test_create_distribution_escrows_funds() {
    let mut ctx = setup();
    let div_addr = ctx.dividend_id;
    let id = ctx.create(ctx.admin, 1000).unwrap();
    assert_eq!(id, 1);
    assert_eq!(ctx.pay.balance(&div_addr), 1000);
    let d = ctx.dividend.get_distribution(id).unwrap();
    assert_eq!(d.total_amount, 1000);
    assert_eq!(d.distributed, 0);
    assert!(!d.completed);
}

#[test]
fn test_claim_is_proportional() {
    let mut ctx = setup();
    let id = ctx.create(ctx.admin, 1000).unwrap();
    assert_eq!(ctx.dividend.claimable(id, ctx.h1), Ok(300));
    assert_eq!(ctx.dividend.claimable(id, ctx.h2), Ok(200));
    assert_eq!(ctx.dividend.claimable(id, ctx.admin), Ok(500));

    let h1 = ctx.h1;
    ctx.claim(id, h1).unwrap();
    assert_eq!(ctx.pay.balance(&ctx.h1), 300);
    assert_eq!(ctx.dividend.claimable(id, ctx.h1), Ok(0));
    assert_eq!(ctx.dividend.get_distribution(id).unwrap().distributed, 300);
}

#[test]
fn test_double_claim_rejected() {
    let mut ctx = setup();
    let id = ctx.create(ctx.admin, 1000).unwrap();
    let h1 = ctx.h1;
    ctx.claim(id, h1).unwrap();
    assert_eq!(ctx.claim(id, h1), Err(Error::AlreadyClaimed));
}

#[test]
fn test_nonholder_nothing_to_claim() {
    let mut ctx = setup();
    let id = ctx.create(ctx.admin, 1000).unwrap();
    let stranger = addr(9);
    assert_eq!(ctx.claim(id, stranger), Err(Error::NothingToClaim));
}

#[test]
fn test_create_requires_admin() {
    let mut ctx = setup();
    let impostor = addr(66);
    assert_eq!(ctx.create(impostor, 1000), Err(Error::Unauthorized));
}

#[test]
fn test_claimable_overflow_guarded() {
    let admin = addr(1);
    let h1 = addr(2);
    let mut comp = ComplianceContract::new();
    comp.initialize(admin).unwrap();
    let us = text("US");
    comp.add_to_allowlist(admin, admin, &us, 0, NOW).unwrap();
    comp.add_to_allowlist(admin, h1, &us, 0, NOW).unwrap();

    let big: i128 = 20_000_000_000_000_000_000; // 2e19
    let mut asset = AssetTokenContract::new();
    asset
        .initialize(
            admin,
            text("Big"),
            text("BIG"),
            text("real_estate"),
            big,
            0,
            contract(50),
            text("desc"),
            big,
            comp.is_allowed(admin, NOW),
        )
        .unwrap();
    asset.transfer(admin, h1, big, comp.is_allowed(admin, NOW), comp.is_allowed(h1, NOW)).unwrap();

    let mut dividend = DividendContract::new();
    dividend.initialize(admin).unwrap();
    let snapshot = vec![(admin, asset.balance(admin)), (h1, asset.balance(h1))];
    dividend
        .create_distribution(
            admin,
            contract(100),
            contract(101),
            big,
            snapshot,
            asset.total_supply().unwrap(),
            NOW,
        )
        .unwrap();
    // total_amount(2e19) * balance(2e19) overflows i128.
    assert_eq!(dividend.claimable(1, h1), Err(Error::ArithmeticOverflow));
}

#[test]
fn test_test_zero_amount_rejected() {
    let mut ctx = setup();
    let admin = ctx.admin;
    assert_eq!(ctx.create(admin, 0), Err(Error::InvalidAmount));
}

#[test]
fn test_missing_distribution() {
    let ctx = setup();
    assert_eq!(ctx.dividend.get_distribution(99), Err(Error::DistributionNotFound));
}

#[test]
fn test_get_distributions_for_asset() {
    let mut ctx = setup();
    let admin = ctx.admin;
    ctx.create(admin, 1000).unwrap();
    ctx.create(admin, 500).unwrap();
    let other_asset = contract(77);
    assert_eq!(ctx.dividend.get_distributions_for_asset(ctx.asset_id).len(), 2);
    assert_eq!(ctx.dividend.get_distributions_for_asset(other_asset).len(), 0);
}

#[test]
fn test_full_distribution_completes() {
    let mut ctx = setup();
    let id = ctx.create(ctx.admin, 1000).unwrap();
    let (h1, h2, admin) = (ctx.h1, ctx.h2, ctx.admin);
    ctx.claim(id, h1).unwrap(); // 300
    ctx.claim(id, h2).unwrap(); // 200
    ctx.claim(id, admin).unwrap(); // 500
    let d = ctx.dividend.get_distribution(id).unwrap();
    assert_eq!(d.distributed, 1000);
    assert!(d.completed);
    assert_eq!(ctx.pay.balance(&ctx.h2), 200);
    assert_eq!(ctx.pay.balance(&ctx.admin), 100_000 - 1000 + 500);
}

#[test]
fn test_create_distribution_zero_supply_rejected() {
    let mut ctx = setup();
    let admin = ctx.admin;
    let mut comp = ComplianceContract::new();
    comp.initialize(admin).unwrap();
    comp.add_to_allowlist(admin, admin, &text("US"), 0, NOW).unwrap();
    let mut zero_asset = AssetTokenContract::new();
    zero_asset
        .initialize(
            admin,
            text("Empty"),
            text("EMPT"),
            text("commodity"),
            0,
            0,
            contract(51),
            text("empty asset"),
            0,
            comp.is_allowed(admin, NOW),
        )
        .unwrap();
    let r = ctx.dividend.create_distribution(
        admin,
        contract(103),
        ctx.pay_id,
        1000,
        Vec::new(),
        zero_asset.total_supply().unwrap(),
        NOW,
    );
    assert_eq!(r, Err(Error::ZeroSupply));
}

// ---- the share formula ----

#[test]
fn share_examples() {
    assert_eq!(proportional_share(1000, 300, 1000), 300);
    assert_eq!(proportional_share(1000, 1, 3), 333);
    assert_eq!(proportional_share(10, 0, 7), 0);
    assert_eq!(proportional_share(10, 7, 7), 10);
    let m = i64::MAX as i128;
    assert_eq!(proportional_share(m, m, m), m);
    assert!(proportional_share(m, m - 1, m) <= m);
}

#[test]
fn shares_of_a_split_supply_never_exceed_total() {
    let total = 1000;
    let supply = 7;
    let balances = [1, 2, 4];
    let sum: i128 = balances.iter().map(|&b| proportional_share(total, b, supply)).sum();
    assert_eq!(sum, 142 + 285 + 571);
    assert!(sum <= total);
}

// ---- further cases ----

#[test]
fn snapshot_freezes_entitlements() {
    let mut ctx = setup();
    let (admin, h1, h2) = (ctx.admin, ctx.h1, ctx.h2);
    let id = ctx
        .dividend
        .create_distribution(
            admin,
            ctx.asset_id,
            ctx.pay_id,
            1000,
            vec![(h1, 300), (h2, 200)],
            1000,
            NOW,
        )
        .unwrap();
    ctx.pay.transfer(admin, ctx.dividend_id, 1000);
    // Shares are sized against the snapshot supply of 500.
    assert_eq!(ctx.dividend.claimable(id, h1), Ok(600));
    assert_eq!(ctx.dividend.claimable(id, h2), Ok(400));
    assert_eq!(ctx.dividend.claimable(id, admin), Ok(0));
    ctx.claim(id, h1).unwrap();
    assert!(ctx.dividend.has_claimed(id, h1));
    assert!(!ctx.dividend.has_claimed(id, h2));
    let d = ctx.dividend.get_distribution(id).unwrap();
    assert_eq!(d.distributed, 600);
    assert!(!d.completed);
}

#[test]
fn snapshot_sum_overflow_rejected() {
    let mut ctx = setup();
    let (admin, h1, h2) = (ctx.admin, ctx.h1, ctx.h2);
    let r = ctx.dividend.create_distribution(
        admin,
        ctx.asset_id,
        ctx.pay_id,
        10,
        vec![(h1, i128::MAX), (h2, 1)],
        1000,
        NOW,
    );
    assert_eq!(r, Err(Error::ArithmeticOverflow));
}

#[test]
fn over_distribution_guarded() {
    let mut ctx = setup();
    let (admin, h1, h2) = (ctx.admin, ctx.h1, ctx.h2);
    // A negative snapshot entry shrinks the supply below the positive balances.
    let id = ctx
        .dividend
        .create_distribution(
            admin,
            ctx.asset_id,
            ctx.pay_id,
            100,
            vec![(h1, 10), (h2, 10), (admin, -10)],
            1000,
            NOW,
        )
        .unwrap();
    assert_eq!(ctx.dividend.claim(id, h1), Ok(100));
    assert_eq!(ctx.dividend.claim(id, h2), Err(Error::OverDistributed));
}

#[test]
fn sweep_after_delay_stops_claims() {
    let mut ctx = setup();
    let admin = ctx.admin;
    let id = ctx.create(admin, 1000).unwrap();
    let h1 = ctx.h1;
    ctx.claim(id, h1).unwrap();
    assert_eq!(ctx.dividend.sweep(admin, id, SWEEP_DELAY_LEDGERS - 1), Err(Error::TooEarlyToSweep));
    assert_eq!(ctx.dividend.sweep(addr(9), id, SWEEP_DELAY_LEDGERS), Err(Error::Unauthorized));
    assert_eq!(ctx.dividend.sweep(admin, id, SWEEP_DELAY_LEDGERS), Ok(700));
    let d = ctx.dividend.get_distribution(id).unwrap();
    assert!(d.swept);
    assert!(d.completed);
    assert_eq!(d.distributed, 1000);
    assert_eq!(ctx.dividend.claimable(id, ctx.h2), Ok(0));
    let h2 = ctx.h2;
    assert_eq!(ctx.dividend.claim(id, h2), Err(Error::NothingToClaim));
    assert_eq!(ctx.dividend.sweep(admin, id, SWEEP_DELAY_LEDGERS), Err(Error::AlreadySwept));
    assert_eq!(ctx.dividend.sweep(admin, 9, SWEEP_DELAY_LEDGERS), Err(Error::DistributionNotFound));
}

#[test]
fn sweep_of_fully_claimed_distribution_rejected() {
    let mut ctx = setup();
    let id = ctx.create(ctx.admin, 1000).unwrap();
    let (h1, h2, admin) = (ctx.h1, ctx.h2, ctx.admin);
    ctx.claim(id, h1).unwrap();
    ctx.claim(id, h2).unwrap();
    ctx.claim(id, admin).unwrap();
    assert_eq!(ctx.dividend.sweep(admin, id, SWEEP_DELAY_LEDGERS), Err(Error::NothingToSweep));
}

#[test]
fn uninitialized_and_double_initialized() {
    let mut d = DividendContract::new();
    assert_eq!(d.get_admin(), Err(Error::NotInitialized));
    assert_eq!(
        d.create_distribution(addr(1), contract(1), contract(2), 10, Vec::new(), 10, NOW),
        Err(Error::NotInitialized)
    );
    d.initialize(addr(1)).unwrap();
    assert_eq!(d.initialize(addr(2)), Err(Error::AlreadyInitialized));
}

#[test]
fn upgrade_flow() {
    let mut ctx = setup();
    let admin = ctx.admin;
    assert_eq!(ctx.dividend.cancel_upgrade(admin), Err(Error::NoPendingUpgrade));
    let p = ctx.dividend.propose_upgrade(admin, [3u8; 32], 5).unwrap();
    assert_eq!(ctx.dividend.get_pending_upgrade(), Some(p));
    assert_eq!(ctx.dividend.upgrade(admin, 5), Err(Error::UpgradeNotReady));
    assert_eq!(ctx.dividend.upgrade(admin, p.ready_at), Ok([3u8; 32]));
    assert_eq!(ctx.dividend.upgrade(admin, p.ready_at), Err(Error::NoPendingUpgrade));
}
