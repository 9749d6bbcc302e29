//! Proportional dividend distribution. An admin funds a distribution with a
//! payment token, held in escrow, against a frozen snapshot of eligible holders
//! and their balances; each holder then claims, once,
//! `total_amount * snapshot_balance / snapshot_supply`, floored.
use vstd::prelude::*;

use crate::address::{Address, IdAddress};
use crate::keyed_map::KeyedMap;
use crate::seq_facts::lemma_filter_take_step;

verus! {

/// Behaviour version of this contract.
pub const VERSION: u32 = 3;

/// About one day of ledgers.
pub const DAY_IN_LEDGERS: u32 = 17280;

/// Ledgers after creation before the admin may sweep unclaimed escrow.
pub const SWEEP_DELAY_LEDGERS: u32 = 90 * DAY_IN_LEDGERS;

/// Minimum delay between proposing and applying an upgrade.
pub const UPGRADE_TIMELOCK_LEDGERS: u32 = 3 * DAY_IN_LEDGERS;

/// A single dividend distribution.
#[derive(Clone, Copy, Debug, PartialEq, Eq)]
pub struct Distribution {
    pub id: u64,
    pub asset_token: Address,
    pub payment_token: Address,
    pub total_amount: i128,
    pub distributed: i128,
    pub created_at: u32,
    pub completed: bool,
    /// Whether the admin has swept the unclaimed remainder; nothing more is
    /// payable afterwards.
    pub swept: bool,
}

/// An upgrade awaiting its timelock.
#[derive(Clone, Copy, Debug, PartialEq, Eq)]
pub struct PendingUpgrade {
    pub wasm_hash: [u8; 32],
    pub ready_at: u32,
}

/// Errors, in the order of their numeric codes (1 to 15).
#[derive(Clone, Copy, Debug, PartialEq, Eq, Structural)]
pub enum Error {
    AlreadyInitialized,
    NotInitialized,
    Unauthorized,
    DistributionNotFound,
    InvalidAmount,
    NothingToClaim,
    AlreadyClaimed,
    ZeroSupply,
    OverDistributed,
    ArithmeticOverflow,
    TooEarlyToSweep,
    NothingToSweep,
    AlreadySwept,
    NoPendingUpgrade,
    UpgradeNotReady,
}

// ---- the share formula ----

/// A holder's floored share of `total_amount` for a basis of `balance` out of
/// `supply`.
pub open spec fn share(total_amount: int, balance: int, supply: int) -> int {
    total_amount * balance / supply
}

/// The floored proportional share `total_amount * balance / supply`.
pub fn proportional_share(total_amount: i128, balance: i128, supply: i128) -> (r: i128)
    requires
        supply > 0,
        total_amount >= 0,
        balance >= 0,
        total_amount * balance <= i128::MAX,
    ensures
        r == share(total_amount as int, balance as int, supply as int),
{
    proof {
        vstd::arithmetic::mul::lemma_mul_nonnegative(total_amount as int, balance as int);
    }
    let product = total_amount * balance;
    product / supply
}

/// The floors of two quotients add up to at most the floor of the sum.
pub proof fn lemma_floor_sum(a: int, b: int, d: int)
    requires
        0 <= a,
        0 <= b,
        0 < d,
    ensures
        a / d + b / d <= (a + b) / d,
{
    let qa = a / d;
    let qb = b / d;
    let q = (a + b) / d;
    let ra = a % d;
    let rb = b % d;
    let r = (a + b) % d;
    vstd::arithmetic::div_mod::lemma_fundamental_div_mod(a, d);
    vstd::arithmetic::div_mod::lemma_fundamental_div_mod(b, d);
    vstd::arithmetic::div_mod::lemma_fundamental_div_mod(a + b, d);
    vstd::arithmetic::div_mod::lemma_mod_pos_bound(a, d);
    vstd::arithmetic::div_mod::lemma_mod_pos_bound(b, d);
    vstd::arithmetic::div_mod::lemma_mod_pos_bound(a + b, d);
    let k = qa + qb - q;
    assert(d * k == r - ra - rb) by (nonlinear_arith)
        requires
            a == d * qa + ra,
            b == d * qb + rb,
            a + b == d * q + r,
            k == qa + qb - q,
    ;
    assert(k <= 0) by (nonlinear_arith)
        requires
            d > 0,
            d * k < d,
    ;
}

/// A holder's floored share is never negative and never exceeds the amount
/// being distributed, as long as its balance does not exceed the supply.
pub proof fn law_share_is_bounded(total_amount: int, balance: int, supply: int)
    requires
        total_amount >= 0,
        0 <= balance <= supply,
        supply > 0,
    ensures
        0 <= share(total_amount, balance, supply) <= total_amount,
{
    vstd::arithmetic::mul::lemma_mul_nonnegative(total_amount, balance);
    vstd::arithmetic::div_mod::lemma_div_pos_is_pos(total_amount * balance, supply);
    vstd::arithmetic::mul::lemma_mul_inequality(balance, supply, total_amount);
    vstd::arithmetic::mul::lemma_mul_is_commutative(balance, total_amount);
    vstd::arithmetic::mul::lemma_mul_is_commutative(supply, total_amount);
    vstd::arithmetic::div_mod::lemma_div_is_ordered(total_amount * balance, total_amount * supply, supply);
    vstd::arithmetic::div_mod::lemma_div_by_multiple(total_amount, supply);
}

/// A zero balance gets a zero share.
pub proof fn law_zero_balance_gets_nothing(total_amount: int, supply: int)
    requires
        supply > 0,
    ensures
        share(total_amount, 0, supply) == 0,
{
    assert(total_amount * 0 == 0);
}

/// A holder of the whole supply gets the whole amount: a single holder loses
/// no rounding dust.
pub proof fn law_whole_supply_gets_everything(total_amount: int, supply: int)
    requires
        total_amount >= 0,
        supply > 0,
    ensures
        share(total_amount, supply, supply) == total_amount,
{
    vstd::arithmetic::mul::lemma_mul_is_commutative(total_amount, supply);
    vstd::arithmetic::div_mod::lemma_div_by_multiple(total_amount, supply);
}

/// The sum of a list of balances.
pub open spec fn balance_sum(balances: Seq<int>) -> int
    decreases balances.len(),
{
    if balances.len() == 0 {
        0
    } else {
        balance_sum(balances.drop_last()) + balances.last()
    }
}

/// The sum of the floored shares of a list of balances.
pub open spec fn share_sum(total_amount: int, balances: Seq<int>, supply: int) -> int
    decreases balances.len(),
{
    if balances.len() == 0 {
        0
    } else {
        share_sum(total_amount, balances.drop_last(), supply) + share(
            total_amount,
            balances.last(),
            supply,
        )
    }
}

proof fn lemma_share_sum_below_share_of_sum(total_amount: int, balances: Seq<int>, supply: int)
    requires
        total_amount >= 0,
        supply > 0,
        forall|i: int| 0 <= i < balances.len() ==> balances[i] >= 0,
    ensures
        share_sum(total_amount, balances, supply) <= share(total_amount, balance_sum(balances), supply),
        balance_sum(balances) >= 0,
    decreases balances.len(),
{
    if balances.len() > 0 {
        let rest = balances.drop_last();
        let b = balances.last();
        lemma_share_sum_below_share_of_sum(total_amount, rest, supply);
        vstd::arithmetic::mul::lemma_mul_nonnegative(total_amount, balance_sum(rest));
        vstd::arithmetic::mul::lemma_mul_nonnegative(total_amount, b);
        lemma_floor_sum(total_amount * balance_sum(rest), total_amount * b, supply);
        vstd::arithmetic::mul::lemma_mul_is_distributive_add(total_amount, balance_sum(rest), b);
    }
}

/// Floored shares never pay out more than the amount distributed: for
/// balances that are not negative and add up to at most the supply, the sum of
/// their shares is at most `total_amount`.
pub proof fn law_shares_never_exceed_total(total_amount: int, balances: Seq<int>, supply: int)
    requires
        total_amount >= 0,
        supply > 0,
        forall|i: int| 0 <= i < balances.len() ==> balances[i] >= 0,
        balance_sum(balances) <= supply,
    ensures
        share_sum(total_amount, balances, supply) <= total_amount,
{
    lemma_share_sum_below_share_of_sum(total_amount, balances, supply);
    law_share_is_bounded(total_amount, balance_sum(balances), supply);
}

// ---- the snapshot ----

/// The balance recorded for `holder` in a snapshot: its first entry, or 0.
pub open spec fn snapshot_basis(s: Seq<(Address, i128)>, holder: Address) -> i128
    decreases s.len(),
{
    if s.len() == 0 {
        0
    } else if s[0].0 == holder {
        s[0].1
    } else {
        snapshot_basis(s.drop_first(), holder)
    }
}

/// The sum of a snapshot's balances, or `None` when a running sum leaves the
/// `i128` range.
pub open spec fn snapshot_total(s: Seq<(Address, i128)>) -> Option<i128>
    decreases s.len(),
{
    if s.len() == 0 {
        Some(0)
    } else {
        match snapshot_total(s.drop_last()) {
            None => None,
            Some(t) => if i128::MIN <= t + s.last().1 <= i128::MAX {
                Some((t + s.last().1) as i128)
            } else {
                None
            },
        }
    }
}

/// Once a running sum leaves the range, the total is undefined.
pub proof fn lemma_snapshot_total_none_persists(s: Seq<(Address, i128)>, k: int)
    requires
        0 <= k <= s.len(),
        snapshot_total(s.take(k)) is None,
    ensures
        snapshot_total(s) is None,
    decreases s.len() - k,
{
    if k == s.len() {
        assert(s.take(k) =~= s);
    } else {
        assert(s.drop_last().take(k) =~= s.take(k));
        lemma_snapshot_total_none_persists(s.drop_last(), k);
    }
}

fn sum_snapshot(s: &Vec<(Address, i128)>) -> (r: Option<i128>)
    ensures
        r == snapshot_total(s@),
{
    let n = s.len();
    let mut total: i128 = 0;
    let mut i: usize = 0;
    proof {
        assert(s@.take(0) =~= Seq::<(Address, i128)>::empty());
    }
    while i < n
        invariant
            n == s@.len(),
            0 <= i <= n,
            snapshot_total(s@.take(i as int)) == Some(total),
        decreases n - i,
    {
        proof {
            assert(s@.take(i + 1).drop_last() =~= s@.take(i as int));
            assert(s@.take(i + 1).last() == s@[i as int]);
        }
        let b = s[i].1;
        match total.checked_add(b) {
            Some(t) => {
                total = t;
            },
            None => {
                proof {
                    lemma_snapshot_total_none_persists(s@, i + 1);
                }
                return None;
            },
        }
        i = i + 1;
    }
    proof {
        assert(s@.take(n as int) =~= s@);
    }
    Some(total)
}

fn find_basis(s: &Vec<(Address, i128)>, holder: &Address) -> (r: i128)
    ensures
        r == snapshot_basis(s@, *holder),
{
    let n = s.len();
    let mut i: usize = 0;
    proof {
        assert(s@.skip(0) =~= s@);
    }
    while i < n
        invariant
            n == s@.len(),
            0 <= i <= n,
            snapshot_basis(s@, *holder) == snapshot_basis(s@.skip(i as int), *holder),
        decreases n - i,
    {
        proof {
            assert(s@.skip(i as int)[0] == s@[i as int]);
            assert(s@.skip(i as int).drop_first() =~= s@.skip(i + 1));
        }
        if s[i].0.equals(holder) {
            return s[i].1;
        }
        i = i + 1;
    }
    0
}

/// The storage of the dividend contract: its admin; the distributions in id
/// order with, for each, its frozen snapshot and the snapshot's total; the
/// claimed flags; and any pending upgrade.
pub struct DividendContract {
    pub admin: Option<Address>,
    pub distributions: Vec<Distribution>,
    pub snapshots: Vec<Vec<(Address, i128)>>,
    pub supplies: Vec<i128>,
    pub claimed: KeyedMap<IdAddress, bool>,
    pub pending_upgrade: Option<PendingUpgrade>,
}

impl DividendContract {
    /// The storage invariant: distribution `i` has id `i + 1`, a positive total
    /// of which between 0 and all has been distributed, and is completed
    /// exactly when all of it has; its supply is its snapshot's total; an
    /// uninitialized contract holds nothing.
    pub open spec fn wf(&self) -> bool {
        &&& self.distributions@.len() <= u64::MAX
        &&& self.snapshots@.len() == self.distributions@.len()
        &&& self.supplies@.len() == self.distributions@.len()
        &&& self.claimed.wf()
        &&& forall|i: int| 0 <= i < self.distributions@.len() ==> {
            let d = #[trigger] self.distributions@[i];
            &&& d.id == i + 1
            &&& d.total_amount > 0
            &&& 0 <= d.distributed <= d.total_amount
            &&& d.completed == (d.distributed >= d.total_amount)
        }
        &&& forall|i: int| 0 <= i < self.distributions@.len() ==> snapshot_total(
            #[trigger] self.snapshots@[i]@,
        ) == Some(self.supplies@[i])
        &&& self.admin.is_none() ==> self.distributions@.len() == 0 && self.claimed@.is_empty()
            && self.pending_upgrade.is_none()
    }

    pub open spec fn exists_dist(&self, id: u64) -> bool {
        1 <= id <= self.distributions@.len()
    }

    pub open spec fn dist(&self, id: u64) -> Distribution {
        self.distributions@[id - 1]
    }

    pub open spec fn supply(&self, id: u64) -> i128 {
        self.supplies@[id - 1]
    }

    pub open spec fn basis(&self, id: u64, holder: Address) -> i128 {
        snapshot_basis(self.snapshots@[id - 1]@, holder)
    }

    /// Whether `holder` has claimed distribution `id`.
    pub open spec fn claimed_by(&self, id: u64, holder: Address) -> bool {
        let k = IdAddress { id, address: holder };
        self.claimed@.contains_key(k) && self.claimed@[k]
    }

    pub open spec fn admin_error(&self, caller: Address) -> Option<Error> {
        match self.admin {
            None => Some(Error::NotInitialized),
            Some(a) => if a == caller {
                None
            } else {
                Some(Error::Unauthorized)
            },
        }
    }

    /// What `holder` may claim from distribution `id`: nothing once swept or
    /// claimed, or without a positive snapshot supply and basis; otherwise its
    /// floored share, unless `total_amount * basis` overflows.
    pub open spec fn claimable_outcome(&self, id: u64, holder: Address) -> Result<i128, Error> {
        if !self.exists_dist(id) {
            Err(Error::DistributionNotFound)
        } else if self.dist(id).swept || self.claimed_by(id, holder) || self.supply(id) <= 0 || self.basis(
            id,
            holder,
        ) <= 0 {
            Ok(0)
        } else if self.dist(id).total_amount * self.basis(id, holder) > i128::MAX {
            Err(Error::ArithmeticOverflow)
        } else {
            Ok(
                share(
                    self.dist(id).total_amount as int,
                    self.basis(id, holder) as int,
                    self.supply(id) as int,
                ) as i128,
            )
        }
    }

    /// What a claim by `holder` on distribution `id` pays, or its error.
    pub open spec fn claim_outcome(&self, id: u64, holder: Address) -> Result<i128, Error> {
        if !self.exists_dist(id) {
            Err(Error::DistributionNotFound)
        } else if self.claimed_by(id, holder) {
            Err(Error::AlreadyClaimed)
        } else {
            match self.claimable_outcome(id, holder) {
                Err(e) => Err(e),
                Ok(a) => if a <= 0 {
                    Err(Error::NothingToClaim)
                } else if self.dist(id).distributed + a > i128::MAX {
                    Err(Error::InvalidAmount)
                } else if self.dist(id).distributed + a > self.dist(id).total_amount {
                    Err(Error::OverDistributed)
                } else {
                    Ok(a)
                },
            }
        }
    }

    /// Whether this storage meets the storage invariant; storage loaded from
    /// elsewhere is checked with this before use.
    pub fn is_well_formed(&self) -> (r: bool)
        ensures
            r == self.wf(),
    {
        let n = self.distributions.len();
        if self.snapshots.len() != n || self.supplies.len() != n || !self.claimed.is_well_formed() {
            return false;
        }
        if self.admin.is_none() && (n != 0 || !self.claimed.is_empty() || self.pending_upgrade.is_some()) {
            return false;
        }
        let mut i: usize = 0;
        while i < n
            invariant
                n == self.distributions@.len(),
                self.snapshots@.len() == n,
                self.supplies@.len() == n,
                0 <= i <= n,
                forall|j: int| 0 <= j < i ==> {
                    let d = #[trigger] self.distributions@[j];
                    &&& d.id == j + 1
                    &&& d.total_amount > 0
                    &&& 0 <= d.distributed <= d.total_amount
                    &&& d.completed == (d.distributed >= d.total_amount)
                },
                forall|j: int| 0 <= j < i ==> snapshot_total(#[trigger] self.snapshots@[j]@) == Some(
                    self.supplies@[j],
                ),
            decreases n - i,
        {
            let d = self.distributions[i];
            if d.id != i as u64 + 1 || d.total_amount <= 0 || d.distributed < 0 || d.distributed
                > d.total_amount || d.completed != (d.distributed >= d.total_amount) {
                return false;
            }
            match sum_snapshot(&self.snapshots[i]) {
                Some(t) => if t != self.supplies[i] {
                    return false;
                },
                None => {
                    return false;
                },
            }
            i = i + 1;
        }
        true
    }

    /// Empty, uninitialized storage.
    pub fn new() -> (c: Self)
        ensures
            c.wf(),
            c.admin.is_none(),
            c.distributions@.len() == 0,
    {
        DividendContract {
            admin: None,
            distributions: Vec::new(),
            snapshots: Vec::new(),
            supplies: Vec::new(),
            claimed: KeyedMap::new(),
            pending_upgrade: None,
        }
    }

    /// Current contract version.
    pub fn version(&self) -> (r: u32)
        ensures
            r == VERSION,
    {
        VERSION
    }

    fn require_admin(&self, admin: &Address) -> (r: Result<(), Error>)
        ensures
            match self.admin_error(*admin) {
                None => r is Ok,
                Some(e) => r == Err::<(), Error>(e),
            },
    {
        match &self.admin {
            None => Err(Error::NotInitialized),
            Some(stored) => if stored.equals(admin) {
                Ok(())
            } else {
                Err(Error::Unauthorized)
            },
        }
    }

    /// Initialize with an admin. Callable once.
    pub fn initialize(&mut self, admin: Address) -> (r: Result<(), Error>)
        requires
            old(self).wf(),
        ensures
            final(self).wf(),
            old(self).admin.is_some() ==> r == Err::<(), Error>(Error::AlreadyInitialized) && *final(self)
                == *old(self),
            old(self).admin.is_none() ==> r is Ok && *final(self) == (DividendContract {
                admin: Some(admin),
                ..*old(self)
            }),
            old(self).admin.is_none() ==> final(self).distributions@.len() == 0
                && final(self).snapshots@.len() == 0 && final(self).supplies@.len() == 0
                && final(self).claimed@.is_empty() && final(self).pending_upgrade.is_none(),
    {
        if self.admin.is_some() {
            return Err(Error::AlreadyInitialized);
        }
        self.admin = Some(admin);
        Ok(())
    }

    /// Create a distribution of `total_amount` of `payment_token` over the
    /// holders of `asset_token`, sized by the frozen `eligible` snapshot.
    /// Admin only. `asset_supply` is the asset token's current total supply,
    /// which must be positive. On success the caller escrows `total_amount`
    /// from the admin into this contract. Returns the new id.
    pub fn create_distribution(
        &mut self,
        admin: Address,
        asset_token: Address,
        payment_token: Address,
        total_amount: i128,
        eligible: Vec<(Address, i128)>,
        asset_supply: i128,
        now: u32,
    ) -> (r: Result<u64, Error>)
        requires
            old(self).wf(),
            old(self).distributions@.len() < u64::MAX,
        ensures
            final(self).wf(),
            match (if old(self).admin_error(admin).is_some() {
                old(self).admin_error(admin)
            } else if total_amount <= 0 {
                Some(Error::InvalidAmount)
            } else if asset_supply <= 0 {
                Some(Error::ZeroSupply)
            } else if snapshot_total(eligible@) is None {
                Some(Error::ArithmeticOverflow)
            } else {
                None
            }) {
                Some(e) => r == Err::<u64, Error>(e) && *final(self) == *old(self),
                None => {
                    let id = (old(self).distributions@.len() + 1) as u64;
                    &&& r == Ok::<u64, Error>(id)
                    &&& final(self).distributions@ == old(self).distributions@.push(
                        Distribution {
                            id,
                            asset_token,
                            payment_token,
                            total_amount,
                            distributed: 0,
                            created_at: now,
                            completed: false,
                            swept: false,
                        },
                    )
                    &&& final(self).snapshots@.len() == old(self).snapshots@.len() + 1
                    &&& forall|i: int| 0 <= i < old(self).snapshots@.len() ==> #[trigger] final(self).snapshots@[i]
                        == old(self).snapshots@[i]
                    &&& final(self).snapshots@[id - 1]@ == eligible@
                    &&& final(self).supplies@ == old(self).supplies@.push(snapshot_total(eligible@).unwrap())
                    &&& final(self).claimed == old(self).claimed
                    &&& final(self).admin == old(self).admin
                    &&& final(self).pending_upgrade == old(self).pending_upgrade
                },
            },
    {
        self.require_admin(&admin)?;
        if total_amount <= 0 {
            return Err(Error::InvalidAmount);
        }
        if asset_supply <= 0 {
            return Err(Error::ZeroSupply);
        }
        let snapshot_supply = match sum_snapshot(&eligible) {
            None => {
                return Err(Error::ArithmeticOverflow);
            },
            Some(t) => t,
        };
        let id = self.distributions.len() as u64 + 1;
        let dist = Distribution {
            id,
            asset_token,
            payment_token,
            total_amount,
            distributed: 0,
            created_at: now,
            completed: false,
            swept: false,
        };
        self.distributions.push(dist);
        self.snapshots.push(eligible);
        self.supplies.push(snapshot_supply);
        proof {
            assert forall|i: int| 0 <= i < self.distributions@.len() implies snapshot_total(
                #[trigger] self.snapshots@[i]@,
            ) == Some(self.supplies@[i]) by {
                if i < old(self).distributions@.len() {
                    assert(self.snapshots@[i] == old(self).snapshots@[i]);
                }
            }
        }
        Ok(id)
    }

    fn has_claimed_exec(&self, id: u64, holder: Address) -> (r: bool)
        requires
            self.wf(),
        ensures
            r == self.claimed_by(id, holder),
    {
        match self.claimed.get(&IdAddress { id, address: holder }) {
            Some(b) => b,
            None => false,
        }
    }

    /// What `holder` can still claim from distribution `id`: 0 once claimed
    /// or swept, or for a holder without a positive snapshot balance.
    pub fn claimable(&self, distribution_id: u64, holder: Address) -> (r: Result<i128, Error>)
        requires
            self.wf(),
        ensures
            r == self.claimable_outcome(distribution_id, holder),
    {
        if distribution_id == 0 || distribution_id > self.distributions.len() as u64 {
            return Err(Error::DistributionNotFound);
        }
        let i = (distribution_id - 1) as usize;
        let d = self.distributions[i];
        if d.swept {
            return Ok(0);
        }
        if self.has_claimed_exec(distribution_id, holder) {
            return Ok(0);
        }
        let supply = self.supplies[i];
        if supply <= 0 {
            return Ok(0);
        }
        let basis = find_basis(&self.snapshots[i], &holder);
        if basis <= 0 {
            return Ok(0);
        }
        match d.total_amount.checked_mul(basis) {
            None => Err(Error::ArithmeticOverflow),
            Some(_) => Ok(proportional_share(d.total_amount, basis, supply)),
        }
    }

    /// Claim `holder`'s share of distribution `id`. On success the caller pays
    /// the returned amount of the payment token from escrow to the holder.
    pub fn claim(&mut self, distribution_id: u64, holder: Address) -> (r: Result<i128, Error>)
        requires
            old(self).wf(),
        ensures
            final(self).wf(),
            r == old(self).claim_outcome(distribution_id, holder),
            match r {
                Err(_) => *final(self) == *old(self),
                Ok(a) => {
                    let d = old(self).dist(distribution_id);
                    &&& final(self).distributions@ == old(self).distributions@.update(
                        distribution_id - 1,
                        Distribution {
                            distributed: (d.distributed + a) as i128,
                            completed: d.distributed + a >= d.total_amount,
                            ..d
                        },
                    )
                    &&& final(self).claimed@ == old(self).claimed@.insert(
                        IdAddress { id: distribution_id, address: holder },
                        true,
                    )
                    &&& final(self).snapshots == old(self).snapshots
                    &&& final(self).supplies == old(self).supplies
                    &&& final(self).admin == old(self).admin
                    &&& final(self).pending_upgrade == old(self).pending_upgrade
                },
            },
            r is Ok ==> forall|id2: u64, h2: Address|
                id2 != distribution_id ==> #[trigger] final(self).claim_outcome(id2, h2) == old(
                    self,
                ).claim_outcome(id2, h2) && final(self).claimable_outcome(id2, h2) == old(
                    self,
                ).claimable_outcome(id2, h2),
    {
        if distribution_id == 0 || distribution_id > self.distributions.len() as u64 {
            return Err(Error::DistributionNotFound);
        }
        if self.has_claimed_exec(distribution_id, holder) {
            return Err(Error::AlreadyClaimed);
        }
        let amount = self.claimable(distribution_id, holder)?;
        if amount <= 0 {
            return Err(Error::NothingToClaim);
        }
        let i = (distribution_id - 1) as usize;
        let mut d = self.distributions[i];
        let distributed = match d.distributed.checked_add(amount) {
            None => {
                return Err(Error::InvalidAmount);
            },
            Some(v) => v,
        };
        if distributed > d.total_amount {
            return Err(Error::OverDistributed);
        }
        d.distributed = distributed;
        if distributed >= d.total_amount {
            d.completed = true;
        }
        self.claimed.insert(IdAddress { id: distribution_id, address: holder }, true);
        self.distributions.set(i, d);
        proof {
            assert(self.admin.is_some());
            assert forall|id2: u64, h2: Address| id2 != distribution_id implies #[trigger] self.claim_outcome(id2, h2)
                == old(self).claim_outcome(id2, h2) && self.claimable_outcome(id2, h2) == old(
                self,
            ).claimable_outcome(id2, h2) by {
                law_claim_flags_are_per_distribution(&*old(self), &*self, distribution_id, holder, d, id2, h2);
            }
        }
        Ok(amount)
    }

    /// Distribution `id`.
    pub fn get_distribution(&self, distribution_id: u64) -> (r: Result<Distribution, Error>)
        requires
            self.wf(),
        ensures
            match r {
                Ok(d) => self.exists_dist(distribution_id) && d == self.dist(distribution_id),
                Err(e) => !self.exists_dist(distribution_id) && e == Error::DistributionNotFound,
            },
    {
        if distribution_id == 0 || distribution_id > self.distributions.len() as u64 {
            return Err(Error::DistributionNotFound);
        }
        Ok(self.distributions[(distribution_id - 1) as usize])
    }

    /// The distributions created for `asset_token`, in id order.
    pub fn get_distributions_for_asset(&self, asset_token: Address) -> (r: Vec<Distribution>)
        ensures
            r@ == self.distributions@.filter(|d: Distribution| d.asset_token == asset_token),
    {
        let ghost keep = |d: Distribution| d.asset_token == asset_token;
        let n = self.distributions.len();
        let mut out: Vec<Distribution> = Vec::new();
        let mut i: usize = 0;
        while i < n
            invariant
                n == self.distributions@.len(),
                0 <= i <= n,
                out@ == self.distributions@.take(i as int).filter(keep),
                keep == (|d: Distribution| d.asset_token == asset_token),
            decreases n - i,
        {
            proof {
                lemma_filter_take_step(self.distributions@, keep, i as int);
            }
            let d = self.distributions[i];
            if d.asset_token.equals(&asset_token) {
                out.push(d);
            }
            i = i + 1;
        }
        proof {
            assert(self.distributions@.take(n as int) =~= self.distributions@);
        }
        out
    }

    /// Whether `holder` has claimed distribution `id`.
    pub fn has_claimed(&self, distribution_id: u64, holder: Address) -> (r: bool)
        requires
            self.wf(),
        ensures
            r == self.claimed_by(distribution_id, holder),
            r == (self.claimed@.contains_key(IdAddress { id: distribution_id, address: holder })
                && self.claimed@[IdAddress { id: distribution_id, address: holder }]),
    {
        self.has_claimed_exec(distribution_id, holder)
    }

    /// The configured admin.
    pub fn get_admin(&self) -> (r: Result<Address, Error>)
        ensures
            match self.admin {
                Some(a) => r == Ok::<Address, Error>(a),
                None => r == Err::<Address, Error>(Error::NotInitialized),
            },
    {
        match self.admin {
            Some(a) => Ok(a),
            None => Err(Error::NotInitialized),
        }
    }

    /// The checks of `sweep`, in order.
    pub open spec fn sweep_error(&self, admin: Address, id: u64, now: u32) -> Option<Error> {
        if self.admin_error(admin).is_some() {
            self.admin_error(admin)
        } else if !self.exists_dist(id) {
            Some(Error::DistributionNotFound)
        } else if self.dist(id).swept {
            Some(Error::AlreadySwept)
        } else if now < (if self.dist(id).created_at + SWEEP_DELAY_LEDGERS > u32::MAX {
            u32::MAX as int
        } else {
            self.dist(id).created_at + SWEEP_DELAY_LEDGERS
        }) {
            Some(Error::TooEarlyToSweep)
        } else if self.dist(id).total_amount - self.dist(id).distributed <= 0 {
            Some(Error::NothingToSweep)
        } else {
            None
        }
    }

    /// Return the unclaimed escrow of distribution `id` to the admin, once
    /// `SWEEP_DELAY_LEDGERS` ledgers have passed since its creation. Admin
    /// only. Nothing more can be claimed from it afterwards. On success the
    /// caller pays the returned amount from escrow to the admin.
    pub fn sweep(&mut self, admin: Address, distribution_id: u64, now: u32) -> (r: Result<i128, Error>)
        requires
            old(self).wf(),
        ensures
            final(self).wf(),
            r is Ok ==> old(self).exists_dist(distribution_id) && (now >= old(self).dist(distribution_id).created_at
                + 1_555_200 || now == u32::MAX),
            match old(self).sweep_error(admin, distribution_id, now) {
                Some(e) => r == Err::<i128, Error>(e) && *final(self) == *old(self),
                None => {
                    let d = old(self).dist(distribution_id);
                    &&& r == Ok::<i128, Error>((d.total_amount - d.distributed) as i128)
                    &&& final(self).distributions@ == old(self).distributions@.update(
                        distribution_id - 1,
                        Distribution { swept: true, distributed: d.total_amount, completed: true, ..d },
                    )
                    &&& final(self).claimed == old(self).claimed
                    &&& final(self).snapshots == old(self).snapshots
                    &&& final(self).supplies == old(self).supplies
                    &&& final(self).admin == old(self).admin
                    &&& final(self).pending_upgrade == old(self).pending_upgrade
                },
            },
    {
        self.require_admin(&admin)?;
        if distribution_id == 0 || distribution_id > self.distributions.len() as u64 {
            return Err(Error::DistributionNotFound);
        }
        let i = (distribution_id - 1) as usize;
        let mut d = self.distributions[i];
        if d.swept {
            return Err(Error::AlreadySwept);
        }
        let deadline = d.created_at.saturating_add(SWEEP_DELAY_LEDGERS);
        if now < deadline {
            return Err(Error::TooEarlyToSweep);
        }
        let remaining = d.total_amount - d.distributed;
        if remaining <= 0 {
            return Err(Error::NothingToSweep);
        }
        d.swept = true;
        d.distributed = d.total_amount;
        d.completed = true;
        self.distributions.set(i, d);
        Ok(remaining)
    }

    /// Propose upgrading to `new_wasm_hash`; it can be applied once
    /// `UPGRADE_TIMELOCK_LEDGERS` ledgers have passed. Admin only.
    pub fn propose_upgrade(&mut self, admin: Address, new_wasm_hash: [u8; 32], now: u32) -> (r: Result<
        PendingUpgrade,
        Error,
    >)
        requires
            old(self).wf(),
        ensures
            final(self).wf(),
            match old(self).admin_error(admin) {
                Some(e) => r == Err::<PendingUpgrade, Error>(e) && *final(self) == *old(self),
                None => {
                    let p = PendingUpgrade {
                        wasm_hash: new_wasm_hash,
                        ready_at: if now + UPGRADE_TIMELOCK_LEDGERS > u32::MAX {
                            u32::MAX
                        } else {
                            (now + UPGRADE_TIMELOCK_LEDGERS) as u32
                        },
                    };
                    r == Ok::<PendingUpgrade, Error>(p) && *final(self) == (DividendContract {
                        pending_upgrade: Some(p),
                        ..*old(self)
                    })
                },
            },
    {
        self.require_admin(&admin)?;
        let ready_at = now.saturating_add(UPGRADE_TIMELOCK_LEDGERS);
        let pending = PendingUpgrade { wasm_hash: new_wasm_hash, ready_at };
        self.pending_upgrade = Some(pending);
        Ok(pending)
    }

    /// Cancel the pending upgrade. Admin only.
    pub fn cancel_upgrade(&mut self, admin: Address) -> (r: Result<(), Error>)
        requires
            old(self).wf(),
        ensures
            final(self).wf(),
            match (if old(self).admin_error(admin).is_some() {
                old(self).admin_error(admin)
            } else if old(self).pending_upgrade.is_none() {
                Some(Error::NoPendingUpgrade)
            } else {
                None
            }) {
                Some(e) => r == Err::<(), Error>(e) && *final(self) == *old(self),
                None => r is Ok && *final(self) == (DividendContract {
                    pending_upgrade: None,
                    ..*old(self)
                }),
            },
    {
        self.require_admin(&admin)?;
        if self.pending_upgrade.is_none() {
            return Err(Error::NoPendingUpgrade);
        }
        self.pending_upgrade = None;
        Ok(())
    }

    /// Apply the pending upgrade once its timelock has passed. Admin only.
    /// Returns the code hash to switch to.
    pub fn upgrade(&mut self, admin: Address, now: u32) -> (r: Result<[u8; 32], Error>)
        requires
            old(self).wf(),
        ensures
            final(self).wf(),
            match (if old(self).admin_error(admin).is_some() {
                old(self).admin_error(admin)
            } else if old(self).pending_upgrade.is_none() {
                Some(Error::NoPendingUpgrade)
            } else if now < old(self).pending_upgrade.unwrap().ready_at {
                Some(Error::UpgradeNotReady)
            } else {
                None
            }) {
                Some(e) => r == Err::<[u8; 32], Error>(e) && *final(self) == *old(self),
                None => r == Ok::<[u8; 32], Error>(old(self).pending_upgrade.unwrap().wasm_hash)
                    && *final(self) == (DividendContract { pending_upgrade: None, ..*old(self) }),
            },
    {
        self.require_admin(&admin)?;
        let pending = match self.pending_upgrade {
            None => {
                return Err(Error::NoPendingUpgrade);
            },
            Some(p) => p,
        };
        if now < pending.ready_at {
            return Err(Error::UpgradeNotReady);
        }
        self.pending_upgrade = None;
        Ok(pending.wasm_hash)
    }

    /// The upgrade awaiting its timelock, if any.
    pub fn get_pending_upgrade(&self) -> (r: Option<PendingUpgrade>)
        ensures
            r == self.pending_upgrade,
    {
        self.pending_upgrade
    }
}

/// A holder claims a distribution at most once: after its claim (which
/// records the claimed flag), another claim is refused with `AlreadyClaimed`
/// and nothing more is claimable.
pub proof fn law_claim_only_once(c: &DividendContract, id: u64, holder: Address)
    requires
        c.exists_dist(id),
        c.claimed_by(id, holder),
    ensures
        c.claim_outcome(id, holder) == Err::<i128, Error>(Error::AlreadyClaimed),
        c.claimable_outcome(id, holder) == Ok::<i128, Error>(0),
{
}

/// A swept distribution pays nobody: nothing is claimable from it and every
/// claim fails.
pub proof fn law_swept_pays_nothing(c: &DividendContract, id: u64, holder: Address)
    requires
        c.exists_dist(id),
        c.dist(id).swept,
    ensures
        c.claimable_outcome(id, holder) == Ok::<i128, Error>(0),
        c.claim_outcome(id, holder) is Err,
{
}

/// A holder outside the snapshot (or with a non-positive snapshot balance)
/// has nothing to claim, whatever it holds now.
pub proof fn law_outside_snapshot_gets_nothing(c: &DividendContract, id: u64, holder: Address)
    requires
        c.exists_dist(id),
        c.basis(id, holder) <= 0,
    ensures
        c.claimable_outcome(id, holder) == Ok::<i128, Error>(0),
{
}

/// A successful claim pays the holder's floored share of the total, computed
/// from its snapshot balance and the snapshot supply, and keeps the amount
/// distributed within the total.
pub proof fn law_claim_pays_share(c: &DividendContract, id: u64, holder: Address)
    requires
        c.wf(),
        c.claim_outcome(id, holder) is Ok,
    ensures
        c.claim_outcome(id, holder) == Ok::<i128, Error>(
            share(c.dist(id).total_amount as int, c.basis(id, holder) as int, c.supply(id) as int) as i128,
        ),
        c.dist(id).distributed + c.claim_outcome(id, holder).unwrap() <= c.dist(id).total_amount,
        !c.dist(id).swept,
{
}

/// Claimed flags are kept per distribution: a claim of distribution `id` by
/// `holder` (which records the flag for `(id, holder)` and updates
/// distribution `id` alone) leaves what any holder can claim from every other
/// distribution exactly as it was.
pub proof fn law_claim_flags_are_per_distribution(
    before: &DividendContract,
    after: &DividendContract,
    id: u64,
    holder: Address,
    updated: Distribution,
    id2: u64,
    h2: Address,
)
    requires
        id != id2,
        1 <= id <= before.distributions@.len(),
        after.distributions@ == before.distributions@.update(id - 1, updated),
        after.claimed@ == before.claimed@.insert(IdAddress { id, address: holder }, true),
        after.snapshots@ == before.snapshots@,
        after.supplies@ == before.supplies@,
    ensures
        after.claimable_outcome(id2, h2) == before.claimable_outcome(id2, h2),
        after.claim_outcome(id2, h2) == before.claim_outcome(id2, h2),
{
    let k2 = IdAddress { id: id2, address: h2 };
    assert(k2 != IdAddress { id, address: holder });
    assert(after.claimed@.contains_key(k2) == before.claimed@.contains_key(k2));
    if before.claimed@.contains_key(k2) {
        assert(after.claimed@[k2] == before.claimed@[k2]);
    }
    if before.exists_dist(id2) {
        assert(after.dist(id2) == before.dist(id2));
        assert(after.supply(id2) == before.supply(id2));
        assert(after.basis(id2, h2) == before.basis(id2, h2));
    }
}

/// What an unclaimed holder can claim: from a distribution that exists, is not
/// swept, has a positive snapshot supply and lists the holder with a positive
/// balance `b`, and for which no flag is recorded for this very
/// `(distribution, holder)` pair, the holder can claim
/// `total_amount * b / supply`, whatever it has claimed from other
/// distributions.
pub proof fn law_unclaimed_holder_gets_its_share(c: &DividendContract, id: u64, holder: Address)
    requires
        c.wf(),
        1 <= id <= c.distributions@.len(),
        !c.distributions@[id - 1].swept,
        !(c.claimed@.contains_key(IdAddress { id, address: holder }) && c.claimed@[IdAddress {
            id,
            address: holder,
        }]),
        c.supplies@[id - 1] > 0,
        snapshot_basis(c.snapshots@[id - 1]@, holder) > 0,
        c.distributions@[id - 1].total_amount * snapshot_basis(c.snapshots@[id - 1]@, holder) <= i128::MAX,
    ensures
        c.claimable_outcome(id, holder) == Ok::<i128, Error>(
            (c.distributions@[id - 1].total_amount * snapshot_basis(c.snapshots@[id - 1]@, holder)
                / (c.supplies@[id - 1] as int)) as i128,
        ),
{
}

/// A sweep waits for its delay: before `created_at + 1_555_200` ledgers (90
/// days of 17_280 ledgers; the deadline saturates at `u32::MAX`), the admin's
/// sweep of an unswept distribution is refused with `TooEarlyToSweep`.
pub proof fn law_sweep_waits_for_its_delay(c: &DividendContract, admin: Address, id: u64, now: u32)
    requires
        c.admin == Some(admin),
        1 <= id <= c.distributions@.len(),
        !c.distributions@[id - 1].swept,
        now < c.distributions@[id - 1].created_at + 1_555_200,
        now < u32::MAX,
    ensures
        c.sweep_error(admin, id, now) == Some(Error::TooEarlyToSweep),
{
}

/// Once the delay has passed since its own creation, the admin can sweep an
/// unswept distribution with something left in escrow.
pub proof fn law_sweep_allowed_after_its_delay(c: &DividendContract, admin: Address, id: u64, now: u32)
    requires
        c.admin == Some(admin),
        1 <= id <= c.distributions@.len(),
        !c.distributions@[id - 1].swept,
        now >= c.distributions@[id - 1].created_at + 1_555_200,
        c.distributions@[id - 1].distributed < c.distributions@[id - 1].total_amount,
    ensures
        c.sweep_error(admin, id, now).is_none(),
{
}

} // verus!
