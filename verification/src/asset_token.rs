//! A compliant token for a tokenized real-world asset. Every transfer is checked
//! by a compliance contract: sender and recipient must both pass its
//! `is_allowed` check before any balance moves, and a mint must pass it for the
//! recipient. The compliance answers are handed in by the caller, who obtains them
//! from the compliance contract named in the metadata.
//!
//! Valuation is in USD cents; amounts are integer base units of the token.
use vstd::prelude::*;

use crate::address::{Address, AddressPair};
use crate::keyed_map::{KeyedMap, lemma_map_of_contains, lemma_map_of_index};
use crate::text::copy_bytes;

verus! {

/// Behaviour version of this contract.
pub const VERSION: u32 = 2;

/// Maximum byte lengths of the text metadata.
pub const MAX_NAME_LEN: usize = 64;
pub const MAX_SYMBOL_LEN: usize = 16;
pub const MAX_ASSET_TYPE_LEN: usize = 32;
pub const MAX_DESC_LEN: usize = 256;

/// About one day of ledgers.
pub const DAY_IN_LEDGERS: u32 = 17280;

/// Minimum delay between proposing and applying an upgrade.
pub const UPGRADE_TIMELOCK_LEDGERS: u32 = 3 * DAY_IN_LEDGERS;

/// Metadata describing the tokenized asset.
pub struct AssetMetadata {
    pub name: Vec<u8>,
    pub symbol: Vec<u8>,
    /// e.g. "real_estate", "invoice", "commodity".
    pub asset_type: Vec<u8>,
    pub total_supply: i128,
    pub decimals: u32,
    pub admin: Address,
    pub compliance_contract: Address,
    pub asset_description: Vec<u8>,
    /// Asset value in USD cents.
    pub valuation: i128,
    pub paused: bool,
}

/// `spender` may move up to `amount` of the owner's tokens; the approval
/// counts as zero once `expiration_ledger` has passed.
#[derive(Clone, Copy, Debug, PartialEq, Eq)]
pub struct AllowanceValue {
    pub amount: i128,
    pub expiration_ledger: u32,
}

/// An upgrade awaiting its timelock.
#[derive(Clone, Copy, Debug, PartialEq, Eq)]
pub struct PendingUpgrade {
    pub wasm_hash: [u8; 32],
    pub ready_at: u32,
}

/// Errors, in the order of their numeric codes (1 to 15).
#[derive(Clone, Copy, Debug, PartialEq, Eq, Structural)]
pub enum Error {
    AlreadyInitialized,
    NotInitialized,
    Unauthorized,
    InsufficientBalance,
    InvalidAmount,
    Paused,
    SenderNotCompliant,
    RecipientNotCompliant,
    Overflow,
    InvalidInput,
    InvalidCompliance,
    InsufficientAllowance,
    InvalidExpirationLedger,
    NoPendingUpgrade,
    UpgradeNotReady,
}

impl AssetMetadata {
    /// Field-for-field equality, comparing texts by their bytes.
    pub open spec fn same_as(&self, other: &AssetMetadata) -> bool {
        &&& self.name@ == other.name@
        &&& self.symbol@ == other.symbol@
        &&& self.asset_type@ == other.asset_type@
        &&& self.total_supply == other.total_supply
        &&& self.decimals == other.decimals
        &&& self.admin == other.admin
        &&& self.compliance_contract == other.compliance_contract
        &&& self.asset_description@ == other.asset_description@
        &&& self.valuation == other.valuation
        &&& self.paused == other.paused
    }

    /// A copy of the metadata.
    pub fn duplicate(&self) -> (r: AssetMetadata)
        ensures
            r.same_as(self),
    {
        AssetMetadata {
            name: copy_bytes(&self.name),
            symbol: copy_bytes(&self.symbol),
            asset_type: copy_bytes(&self.asset_type),
            total_supply: self.total_supply,
            decimals: self.decimals,
            admin: self.admin,
            compliance_contract: self.compliance_contract,
            asset_description: copy_bytes(&self.asset_description),
            valuation: self.valuation,
            paused: self.paused,
        }
    }
}

/// A text field is acceptable when its byte length lies in `[min, max]`.
pub open spec fn text_ok(s: Seq<u8>, min: int, max: int) -> bool {
    min <= s.len() <= max
}

fn check_text(s: &Vec<u8>, min: usize, max: usize) -> (r: bool)
    ensures
        r == text_ok(s@, min as int, max as int),
{
    s.len() >= min && s.len() <= max
}

/// Minting each `(recipient, amount, allowed)` entry in turn, starting from
/// `balances` and `supply`: the resulting balances and supply, or the first
/// check that fails (a non-positive amount, a recipient the compliance check refuses, or an
/// overflow of the supply or of the recipient's balance).
pub open spec fn batch_outcome(
    balances: Map<Address, i128>,
    supply: int,
    entries: Seq<(Address, i128, bool)>,
) -> Result<(Map<Address, i128>, int), Error>
    decreases entries.len(),
{
    if entries.len() == 0 {
        Ok((balances, supply))
    } else {
        match batch_outcome(balances, supply, entries.drop_last()) {
            Err(e) => Err(e),
            Ok((m, s)) => {
                let (to, amount, allowed) = entries.last();
                let bal: int = if m.contains_key(to) {
                    m[to] as int
                } else {
                    0
                };
                if amount <= 0 {
                    Err(Error::InvalidAmount)
                } else if !allowed {
                    Err(Error::RecipientNotCompliant)
                } else if s + amount > i128::MAX || bal + amount > i128::MAX {
                    Err(Error::Overflow)
                } else {
                    Ok((m.insert(to, (bal + amount) as i128), s + amount))
                }
            },
        }
    }
}

/// Once a prefix of the batch fails, the whole batch fails the same way.
pub proof fn lemma_batch_failure_persists(
    balances: Map<Address, i128>,
    supply: int,
    entries: Seq<(Address, i128, bool)>,
    k: int,
)
    requires
        0 <= k <= entries.len(),
        batch_outcome(balances, supply, entries.take(k)) is Err,
    ensures
        batch_outcome(balances, supply, entries) == batch_outcome(balances, supply, entries.take(k)),
    decreases entries.len() - k,
{
    if k == entries.len() {
        assert(entries.take(k) =~= entries);
    } else {
        assert(entries.drop_last().take(k) =~= entries.take(k));
        lemma_batch_failure_persists(balances, supply, entries.drop_last(), k);
    }
}

/// The storage of an asset token: its metadata (absent before
/// initialization), the balances, the approvals, and any pending upgrade.
pub struct AssetTokenContract {
    pub metadata: Option<AssetMetadata>,
    pub balances: KeyedMap<Address, i128>,
    pub allowances: KeyedMap<AddressPair, AllowanceValue>,
    pub pending_upgrade: Option<PendingUpgrade>,
}

impl AssetTokenContract {
    /// The storage invariant: no balance or approval is negative; before
    /// initialization nothing is stored; afterwards the balances add up to the
    /// total supply.
    pub open spec fn wf(&self) -> bool {
        &&& self.balances.wf()
        &&& self.allowances.wf()
        &&& self.balances.nonnegative()
        &&& forall|k: AddressPair| #[trigger]
            self.allowances@.contains_key(k) ==> self.allowances@[k].amount >= 0
        &&& match self.metadata {
            None => {
                &&& self.balances.entries@.len() == 0
                &&& self.allowances@.is_empty()
                &&& self.pending_upgrade.is_none()
            },
            Some(m) => self.balances.total() == m.total_supply as int,
        }
    }

    /// The balance of `id`: zero when it has none.
    pub open spec fn balance_of(&self, id: Address) -> int {
        self.balances.amount_of(id)
    }

    pub open spec fn meta(&self) -> AssetMetadata {
        self.metadata.unwrap()
    }

    /// Checks of an admin-only call: initialized, then the caller is the admin.
    pub open spec fn admin_error(&self, caller: Address) -> Option<Error> {
        match self.metadata {
            None => Some(Error::NotInitialized),
            Some(m) => if m.admin == caller {
                None
            } else {
                Some(Error::Unauthorized)
            },
        }
    }

    /// The approval `from` gave `spender`, as it stands at ledger `now`: zero
    /// when there is none, and zero (keeping its expiry) once expired.
    pub open spec fn current_allowance(&self, from: Address, spender: Address, now: u32) -> AllowanceValue {
        let key = AddressPair { first: from, second: spender };
        if self.allowances@.contains_key(key) {
            let a = self.allowances@[key];
            if a.amount > 0 && a.expiration_ledger < now {
                AllowanceValue { amount: 0, expiration_ledger: a.expiration_ledger }
            } else {
                a
            }
        } else {
            AllowanceValue { amount: 0, expiration_ledger: 0 }
        }
    }

    /// The checks of `initialize`, in the order they are made.
    pub open spec fn initialize_error(
        &self,
        name: Seq<u8>,
        symbol: Seq<u8>,
        asset_type: Seq<u8>,
        total_supply: i128,
        asset_description: Seq<u8>,
        valuation: i128,
        admin_allowed: bool,
    ) -> Option<Error> {
        if self.metadata.is_some() {
            Some(Error::AlreadyInitialized)
        } else if total_supply < 0 || valuation < 0 {
            Some(Error::InvalidAmount)
        } else if !text_ok(name, 1, MAX_NAME_LEN as int) || !text_ok(symbol, 1, MAX_SYMBOL_LEN as int)
            || !text_ok(asset_type, 1, MAX_ASSET_TYPE_LEN as int) || !text_ok(
            asset_description,
            1,
            MAX_DESC_LEN as int,
        ) {
            Some(Error::InvalidInput)
        } else if !admin_allowed {
            Some(Error::RecipientNotCompliant)
        } else {
            None
        }
    }

    /// The checks of a transfer of `amount` from `from` to `to`, in the order
    /// they are made; `from_allowed`/`to_allowed` are the compliance answers.
    pub open spec fn transfer_error(
        &self,
        from: Address,
        to: Address,
        amount: i128,
        from_allowed: bool,
        to_allowed: bool,
    ) -> Option<Error> {
        if amount <= 0 {
            Some(Error::InvalidAmount)
        } else if self.metadata.is_none() {
            Some(Error::NotInitialized)
        } else if self.meta().paused {
            Some(Error::Paused)
        } else if !from_allowed {
            Some(Error::SenderNotCompliant)
        } else if !to_allowed {
            Some(Error::RecipientNotCompliant)
        } else if self.balance_of(from) < amount {
            Some(Error::InsufficientBalance)
        } else if from != to && self.balance_of(to) + amount > i128::MAX {
            Some(Error::Overflow)
        } else {
            None
        }
    }

    /// The balances after moving `amount` from `from` to `to`; a self-transfer
    /// changes nothing.
    pub open spec fn moved(&self, from: Address, to: Address, amount: i128) -> Map<Address, i128> {
        if from == to {
            self.balances@
        } else {
            self.balances@.insert(from, (self.balance_of(from) - amount) as i128).insert(
                to,
                (self.balance_of(to) + amount) as i128,
            )
        }
    }

    /// The checks of `mint`, in order.
    pub open spec fn mint_error(&self, admin: Address, to: Address, amount: i128, to_allowed: bool) -> Option<Error> {
        if self.admin_error(admin).is_some() {
            self.admin_error(admin)
        } else if amount <= 0 {
            Some(Error::InvalidAmount)
        } else if self.meta().paused {
            Some(Error::Paused)
        } else if !to_allowed {
            Some(Error::RecipientNotCompliant)
        } else if self.meta().total_supply + amount > i128::MAX || self.balance_of(to) + amount
            > i128::MAX {
            Some(Error::Overflow)
        } else {
            None
        }
    }

    /// The checks of `burn`, in order. Pausing does not stop a holder from
    /// burning its own tokens, so that redemption keeps working.
    pub open spec fn burn_error(&self, from: Address, amount: i128, from_allowed: bool) -> Option<Error> {
        if amount <= 0 {
            Some(Error::InvalidAmount)
        } else if self.metadata.is_none() {
            Some(Error::NotInitialized)
        } else if !from_allowed {
            Some(Error::SenderNotCompliant)
        } else if self.balance_of(from) < amount {
            Some(Error::InsufficientBalance)
        } else if self.meta().total_supply - amount < i128::MIN {
            Some(Error::Overflow)
        } else {
            None
        }
    }

    /// Whether this storage meets the storage invariant; storage loaded from
    /// elsewhere is checked with this before use.
    pub fn is_well_formed(&self) -> (r: bool)
        ensures
            r == self.wf(),
    {
        if !self.balances.is_well_formed() || !self.allowances.is_well_formed()
            || !self.balances.all_nonnegative() {
            return false;
        }
        let n = self.allowances.entries.len();
        let mut i: usize = 0;
        while i < n
            invariant
                self.allowances.wf(),
                n == self.allowances.entries@.len(),
                0 <= i <= n,
                forall|j: int| 0 <= j < i ==> (#[trigger] self.allowances.entries@[j]).1.amount >= 0,
            decreases n - i,
        {
            if self.allowances.entries[i].1.amount < 0 {
                proof {
                    lemma_map_of_index(self.allowances.entries@, i as int);
                }
                return false;
            }
            i = i + 1;
        }
        proof {
            assert forall|k: AddressPair| #[trigger] self.allowances@.contains_key(k) implies self.allowances@[k].amount
                >= 0 by {
                lemma_map_of_contains(self.allowances.entries@, k);
                let j = choose|j: int| 0 <= j < self.allowances.entries@.len() && self.allowances.entries@[j].0 == k;
                lemma_map_of_index(self.allowances.entries@, j);
                assert(self.allowances.entries@[j].1.amount >= 0);
            }
        }
        match &self.metadata {
            None => self.balances.entries.len() == 0 && self.allowances.is_empty() && self.pending_upgrade.is_none(),
            Some(m) => match self.balances.checked_total() {
                Some(t) => t == m.total_supply,
                None => false,
            },
        }
    }

    /// Empty, uninitialized storage.
    pub fn new() -> (c: Self)
        ensures
            c.wf(),
            c.metadata.is_none(),
            c.balances@.is_empty(),
            c.allowances@.is_empty(),
            c.pending_upgrade.is_none(),
    {
        let c = AssetTokenContract {
            metadata: None,
            balances: KeyedMap::new(),
            allowances: KeyedMap::new(),
            pending_upgrade: None,
        };
        proof {
            assert(c.allowances@.is_empty());
        }
        c
    }

    /// Current contract version.
    pub fn version(&self) -> (r: u32)
        ensures
            r == VERSION,
    {
        VERSION
    }

    fn require_admin(&self, admin: &Address) -> (r: Result<(), Error>)
        ensures
            match self.admin_error(*admin) {
                None => r is Ok,
                Some(e) => r == Err::<(), Error>(e),
            },
    {
        match &self.metadata {
            None => Err(Error::NotInitialized),
            Some(m) => if m.admin.equals(admin) {
                Ok(())
            } else {
                Err(Error::Unauthorized)
            },
        }
    }

    /// Initialize the token and credit the whole `total_supply` to the admin.
    /// `admin_allowed` is the answer of `compliance_contract` for `admin`: the
    /// admin must be allowed to hold the supply.
    pub fn initialize(
        &mut self,
        admin: Address,
        name: Vec<u8>,
        symbol: Vec<u8>,
        asset_type: Vec<u8>,
        total_supply: i128,
        decimals: u32,
        compliance_contract: Address,
        asset_description: Vec<u8>,
        valuation: i128,
        admin_allowed: bool,
    ) -> (r: Result<(), Error>)
        requires
            old(self).wf(),
        ensures
            final(self).wf(),
            match old(self).initialize_error(
                name@,
                symbol@,
                asset_type@,
                total_supply,
                asset_description@,
                valuation,
                admin_allowed,
            ) {
                Some(e) => r == Err::<(), Error>(e) && *final(self) == *old(self),
                None => {
                    &&& r is Ok
                    &&& final(self).metadata == Some(
                        AssetMetadata {
                            name,
                            symbol,
                            asset_type,
                            total_supply,
                            decimals,
                            admin,
                            compliance_contract,
                            asset_description,
                            valuation,
                            paused: false,
                        },
                    )
                    &&& final(self).balances@ == old(self).balances@.insert(admin, total_supply)
                    &&& final(self).allowances@ == old(self).allowances@
                    &&& final(self).pending_upgrade == old(self).pending_upgrade
                },
            },
    {
        if self.metadata.is_some() {
            return Err(Error::AlreadyInitialized);
        }
        if total_supply < 0 || valuation < 0 {
            return Err(Error::InvalidAmount);
        }
        if !check_text(&name, 1, MAX_NAME_LEN) || !check_text(&symbol, 1, MAX_SYMBOL_LEN) || !check_text(
            &asset_type,
            1,
            MAX_ASSET_TYPE_LEN,
        ) || !check_text(&asset_description, 1, MAX_DESC_LEN) {
            return Err(Error::InvalidInput);
        }
        if !admin_allowed {
            return Err(Error::RecipientNotCompliant);
        }
        self.balances.set_amount(admin, total_supply);
        self.metadata = Some(
            AssetMetadata {
                name,
                symbol,
                asset_type,
                total_supply,
                decimals,
                admin,
                compliance_contract,
                asset_description,
                valuation,
                paused: false,
            },
        );
        Ok(())
    }

    /// Move `amount` between two different holders whose balances allow it.
    fn move_balance(&mut self, from: Address, to: Address, amount: i128) -> (r: (i128, i128))
        requires
            old(self).wf(),
            old(self).metadata.is_some(),
            from != to,
            0 < amount <= old(self).balance_of(from),
            old(self).balance_of(to) + amount <= i128::MAX,
        ensures
            final(self).wf(),
            final(self).balances@ == old(self).moved(from, to, amount),
            r.0 == old(self).balance_of(from) - amount,
            r.1 == old(self).balance_of(to) + amount,
            final(self).metadata == old(self).metadata,
            final(self).allowances == old(self).allowances,
            final(self).pending_upgrade == old(self).pending_upgrade,
    {
        proof {
            self.balances.lemma_amount_bounded(to);
        }
        let from_bal = self.balances.get_amount(&from);
        let to_bal = self.balances.get_amount(&to);
        let new_from = from_bal - amount;
        let new_to = to_bal + amount;
        self.balances.set_amount(from, new_from);
        proof {
            assert(self.balances.amount_of(to) == to_bal);
        }
        self.balances.set_amount(to, new_to);
        (new_from, new_to)
    }

    /// Transfer `amount` from `from` to `to`. `from_allowed` and `to_allowed`
    /// are the compliance check's answers for the two parties. Returns the new
    /// balances of the sender and the recipient.
    pub fn transfer(
        &mut self,
        from: Address,
        to: Address,
        amount: i128,
        from_allowed: bool,
        to_allowed: bool,
    ) -> (r: Result<(i128, i128), Error>)
        requires
            old(self).wf(),
        ensures
            final(self).wf(),
            match old(self).transfer_error(from, to, amount, from_allowed, to_allowed) {
                Some(e) => r == Err::<(i128, i128), Error>(e) && *final(self) == *old(self),
                None => {
                    &&& r == Ok::<(i128, i128), Error>(
                        if from == to {
                            (old(self).balance_of(from) as i128, old(self).balance_of(from) as i128)
                        } else {
                            (
                                (old(self).balance_of(from) - amount) as i128,
                                (old(self).balance_of(to) + amount) as i128,
                            )
                        },
                    )
                    &&& final(self).balances@ == old(self).moved(from, to, amount)
                    &&& final(self).metadata == old(self).metadata
                    &&& final(self).allowances == old(self).allowances
                    &&& final(self).pending_upgrade == old(self).pending_upgrade
                },
            },
    {
        if amount <= 0 {
            return Err(Error::InvalidAmount);
        }
        let paused = match &self.metadata {
            None => {
                return Err(Error::NotInitialized);
            },
            Some(m) => m.paused,
        };
        if paused {
            return Err(Error::Paused);
        }
        if !from_allowed {
            return Err(Error::SenderNotCompliant);
        }
        if !to_allowed {
            return Err(Error::RecipientNotCompliant);
        }
        let from_bal = self.balances.get_amount(&from);
        if from_bal < amount {
            return Err(Error::InsufficientBalance);
        }
        if from.equals(&to) {
            return Ok((from_bal, from_bal));
        }
        let to_bal = self.balances.get_amount(&to);
        if to_bal > i128::MAX - amount {
            return Err(Error::Overflow);
        }
        let r = self.move_balance(from, to, amount);
        Ok(r)
    }

    /// Mint `amount` new tokens to `to`. Admin only; `to_allowed` is the
    /// compliance answer for the recipient.
    pub fn mint(&mut self, admin: Address, to: Address, amount: i128, to_allowed: bool) -> (r: Result<
        (),
        Error,
    >)
        requires
            old(self).wf(),
        ensures
            final(self).wf(),
            match old(self).mint_error(admin, to, amount, to_allowed) {
                Some(e) => r == Err::<(), Error>(e) && *final(self) == *old(self),
                None => {
                    &&& r is Ok
                    &&& final(self).metadata == Some(
                        AssetMetadata {
                            total_supply: (old(self).meta().total_supply + amount) as i128,
                            ..old(self).meta()
                        },
                    )
                    &&& final(self).balances@ == old(self).balances@.insert(
                        to,
                        (old(self).balance_of(to) + amount) as i128,
                    )
                    &&& final(self).allowances == old(self).allowances
                    &&& final(self).pending_upgrade == old(self).pending_upgrade
                },
            },
    {
        self.require_admin(&admin)?;
        if amount <= 0 {
            return Err(Error::InvalidAmount);
        }
        let (paused, supply) = match &self.metadata {
            None => {
                return Err(Error::NotInitialized);
            },
            Some(m) => (m.paused, m.total_supply),
        };
        if paused {
            return Err(Error::Paused);
        }
        if !to_allowed {
            return Err(Error::RecipientNotCompliant);
        }
        if supply > i128::MAX - amount {
            return Err(Error::Overflow);
        }
        let to_bal = self.balances.get_amount(&to);
        if to_bal > i128::MAX - amount {
            return Err(Error::Overflow);
        }
        proof {
            self.balances.lemma_amount_bounded(to);
        }
        self.balances.set_amount(to, to_bal + amount);
        if let Some(m) = &mut self.metadata {
            m.total_supply = supply + amount;
        }
        Ok(())
    }

    /// Mint to several recipients at once. Admin only. Each entry holds a
    /// recipient, the amount to mint, and the compliance answer for the recipient;
    /// entries are applied in order and any failing entry fails the whole call.
    pub fn mint_batch(&mut self, admin: Address, entries: &Vec<(Address, i128, bool)>) -> (r: Result<
        (),
        Error,
    >)
        requires
            old(self).wf(),
        ensures
            final(self).wf(),
            old(self).admin_error(admin).is_some() ==> r == Err::<(), Error>(
                old(self).admin_error(admin).unwrap(),
            ) && *final(self) == *old(self),
            old(self).admin_error(admin).is_none() && old(self).meta().paused ==> r == Err::<(), Error>(
                Error::Paused,
            ) && *final(self) == *old(self),
            old(self).admin_error(admin).is_none() && !old(self).meta().paused ==> match batch_outcome(
                old(self).balances@,
                old(self).meta().total_supply as int,
                entries@,
            ) {
                Err(e) => r == Err::<(), Error>(e) && *final(self) == *old(self),
                Ok((m, s)) => {
                    &&& r is Ok
                    &&& final(self).balances@ == m
                    &&& final(self).metadata == Some(
                        AssetMetadata { total_supply: s as i128, ..old(self).meta() },
                    )
                    &&& final(self).allowances == old(self).allowances
                    &&& final(self).pending_upgrade == old(self).pending_upgrade
                },
            },
    {
        self.require_admin(&admin)?;
        let (paused, supply0) = match &self.metadata {
            None => {
                return Err(Error::NotInitialized);
            },
            Some(m) => (m.paused, m.total_supply),
        };
        if paused {
            return Err(Error::Paused);
        }
        let mut work = self.balances.copy();
        let mut supply = supply0;
        let n = entries.len();
        let mut i: usize = 0;
        proof {
            assert(entries@.take(0) =~= Seq::<(Address, i128, bool)>::empty());
        }
        while i < n
            invariant
                n == entries@.len(),
                0 <= i <= n,
                *self == *old(self),
                old(self).wf(),
                old(self).admin_error(admin).is_none(),
                !old(self).meta().paused,
                supply0 == old(self).meta().total_supply,
                work.wf(),
                work.nonnegative(),
                work.total() == supply as int,
                batch_outcome(old(self).balances@, supply0 as int, entries@.take(i as int)) == Ok::<
                    (Map<Address, i128>, int),
                    Error,
                >((work@, supply as int)),
            decreases n - i,
        {
            let (to, amount, allowed) = entries[i];
            proof {
                assert(entries@.take(i + 1).drop_last() =~= entries@.take(i as int));
                assert(entries@.take(i + 1).last() == entries@[i as int]);
                work.lemma_amount_bounded(to);
            }
            if amount <= 0 {
                proof {
                    lemma_batch_failure_persists(old(self).balances@, supply0 as int, entries@, i + 1);
                }
                return Err(Error::InvalidAmount);
            }
            if !allowed {
                proof {
                    lemma_batch_failure_persists(old(self).balances@, supply0 as int, entries@, i + 1);
                }
                return Err(Error::RecipientNotCompliant);
            }
            let to_bal = work.get_amount(&to);
            if supply > i128::MAX - amount || to_bal > i128::MAX - amount {
                proof {
                    lemma_batch_failure_persists(old(self).balances@, supply0 as int, entries@, i + 1);
                }
                return Err(Error::Overflow);
            }
            work.set_amount(to, to_bal + amount);
            supply = supply + amount;
            i = i + 1;
        }
        proof {
            assert(entries@.take(n as int) =~= entries@);
        }
        self.balances = work;
        if let Some(m) = &mut self.metadata {
            m.total_supply = supply;
        }
        Ok(())
    }

    /// Burn `amount` of `from`'s own tokens; `from_allowed` is the compliance check's
    /// answer for `from`.
    pub fn burn(&mut self, from: Address, amount: i128, from_allowed: bool) -> (r: Result<(), Error>)
        requires
            old(self).wf(),
        ensures
            final(self).wf(),
            match old(self).burn_error(from, amount, from_allowed) {
                Some(e) => r == Err::<(), Error>(e) && *final(self) == *old(self),
                None => {
                    &&& r is Ok
                    &&& final(self).metadata == Some(
                        AssetMetadata {
                            total_supply: (old(self).meta().total_supply - amount) as i128,
                            ..old(self).meta()
                        },
                    )
                    &&& final(self).balances@ == old(self).balances@.insert(
                        from,
                        (old(self).balance_of(from) - amount) as i128,
                    )
                    &&& final(self).allowances == old(self).allowances
                    &&& final(self).pending_upgrade == old(self).pending_upgrade
                },
            },
    {
        if amount <= 0 {
            return Err(Error::InvalidAmount);
        }
        let supply = match &self.metadata {
            None => {
                return Err(Error::NotInitialized);
            },
            Some(m) => m.total_supply,
        };
        if !from_allowed {
            return Err(Error::SenderNotCompliant);
        }
        let from_bal = self.balances.get_amount(&from);
        if from_bal < amount {
            return Err(Error::InsufficientBalance);
        }
        if supply < i128::MIN + amount {
            return Err(Error::Overflow);
        }
        self.balances.set_amount(from, from_bal - amount);
        if let Some(m) = &mut self.metadata {
            m.total_supply = supply - amount;
        }
        Ok(())
    }

    /// The balance of `id`: zero when it has none.
    pub fn balance(&self, id: Address) -> (r: i128)
        requires
            self.wf(),
        ensures
            r == self.balance_of(id),
    {
        self.balances.get_amount(&id)
    }

    /// The total supply.
    pub fn total_supply(&self) -> (r: Result<i128, Error>)
        ensures
            match self.metadata {
                None => r == Err::<i128, Error>(Error::NotInitialized),
                Some(m) => r == Ok::<i128, Error>(m.total_supply),
            },
    {
        match &self.metadata {
            None => Err(Error::NotInitialized),
            Some(m) => Ok(m.total_supply),
        }
    }

    /// Pause transfers and mints. Admin only.
    pub fn pause(&mut self, admin: Address) -> (r: Result<(), Error>)
        requires
            old(self).wf(),
        ensures
            final(self).wf(),
            match old(self).admin_error(admin) {
                Some(e) => r == Err::<(), Error>(e) && *final(self) == *old(self),
                None => r is Ok && final(self).metadata == Some(AssetMetadata { paused: true, ..old(self).meta() })
                    && final(self).balances == old(self).balances && final(self).allowances
                    == old(self).allowances && final(self).pending_upgrade == old(self).pending_upgrade,
            },
    {
        self.require_admin(&admin)?;
        if let Some(m) = &mut self.metadata {
            m.paused = true;
        }
        Ok(())
    }

    /// Resume transfers and mints. Admin only.
    pub fn unpause(&mut self, admin: Address) -> (r: Result<(), Error>)
        requires
            old(self).wf(),
        ensures
            final(self).wf(),
            match old(self).admin_error(admin) {
                Some(e) => r == Err::<(), Error>(e) && *final(self) == *old(self),
                None => r is Ok && final(self).metadata == Some(AssetMetadata { paused: false, ..old(self).meta() })
                    && final(self).balances == old(self).balances && final(self).allowances
                    == old(self).allowances && final(self).pending_upgrade == old(self).pending_upgrade,
            },
    {
        self.require_admin(&admin)?;
        if let Some(m) = &mut self.metadata {
            m.paused = false;
        }
        Ok(())
    }

    /// A copy of the metadata.
    pub fn get_metadata(&self) -> (r: Result<AssetMetadata, Error>)
        ensures
            match r {
                Ok(m) => self.metadata.is_some() && m.same_as(&self.meta()),
                Err(e) => self.metadata.is_none() && e == Error::NotInitialized,
            },
    {
        match &self.metadata {
            None => Err(Error::NotInitialized),
            Some(m) => Ok(m.duplicate()),
        }
    }

    /// Record a new USD-cents valuation. Admin only; it must not be negative.
    pub fn update_valuation(&mut self, admin: Address, new_valuation: i128) -> (r: Result<(), Error>)
        requires
            old(self).wf(),
        ensures
            final(self).wf(),
            match (if old(self).admin_error(admin).is_some() {
                old(self).admin_error(admin)
            } else if new_valuation < 0 {
                Some(Error::InvalidAmount)
            } else {
                None
            }) {
                Some(e) => r == Err::<(), Error>(e) && *final(self) == *old(self),
                None => r is Ok && final(self).metadata == Some(
                    AssetMetadata { valuation: new_valuation, ..old(self).meta() },
                ) && final(self).balances == old(self).balances && final(self).allowances
                    == old(self).allowances && final(self).pending_upgrade == old(self).pending_upgrade,
            },
    {
        self.require_admin(&admin)?;
        if new_valuation < 0 {
            return Err(Error::InvalidAmount);
        }
        if let Some(m) = &mut self.metadata {
            m.valuation = new_valuation;
        }
        Ok(())
    }

    /// Point the token at another compliance contract. Admin only.
    /// `admin_allowed` is the new contract's answer for the admin: a contract
    /// that does not let the admin through is refused. Existing holders are
    /// not checked again.
    pub fn set_compliance(&mut self, admin: Address, compliance: Address, admin_allowed: bool) -> (r: Result<
        (),
        Error,
    >)
        requires
            old(self).wf(),
        ensures
            final(self).wf(),
            match (if old(self).admin_error(admin).is_some() {
                old(self).admin_error(admin)
            } else if !admin_allowed {
                Some(Error::InvalidCompliance)
            } else {
                None
            }) {
                Some(e) => r == Err::<(), Error>(e) && *final(self) == *old(self),
                None => r is Ok && final(self).metadata == Some(
                    AssetMetadata { compliance_contract: compliance, ..old(self).meta() },
                ) && final(self).balances == old(self).balances && final(self).allowances
                    == old(self).allowances && final(self).pending_upgrade == old(self).pending_upgrade,
            },
    {
        self.require_admin(&admin)?;
        if !admin_allowed {
            return Err(Error::InvalidCompliance);
        }
        if let Some(m) = &mut self.metadata {
            m.compliance_contract = compliance;
        }
        Ok(())
    }

    /// Token name.
    pub fn name(&self) -> (r: Result<Vec<u8>, Error>)
        ensures
            match r {
                Ok(v) => self.metadata.is_some() && v@ == self.meta().name@,
                Err(e) => self.metadata.is_none() && e == Error::NotInitialized,
            },
    {
        match &self.metadata {
            None => Err(Error::NotInitialized),
            Some(m) => Ok(copy_bytes(&m.name)),
        }
    }

    /// Token symbol.
    pub fn symbol(&self) -> (r: Result<Vec<u8>, Error>)
        ensures
            match r {
                Ok(v) => self.metadata.is_some() && v@ == self.meta().symbol@,
                Err(e) => self.metadata.is_none() && e == Error::NotInitialized,
            },
    {
        match &self.metadata {
            None => Err(Error::NotInitialized),
            Some(m) => Ok(copy_bytes(&m.symbol)),
        }
    }

    /// Token decimals.
    pub fn decimals(&self) -> (r: Result<u32, Error>)
        ensures
            match self.metadata {
                None => r == Err::<u32, Error>(Error::NotInitialized),
                Some(m) => r == Ok::<u32, Error>(m.decimals),
            },
    {
        match &self.metadata {
            None => Err(Error::NotInitialized),
            Some(m) => Ok(m.decimals),
        }
    }

    fn read_allowance(&self, from: Address, spender: Address, now: u32) -> (r: AllowanceValue)
        requires
            self.wf(),
        ensures
            r == self.current_allowance(from, spender, now),
            r.amount >= 0,
    {
        let key = AddressPair { first: from, second: spender };
        match self.allowances.get(&key) {
            Some(a) => if a.amount > 0 && a.expiration_ledger < now {
                AllowanceValue { amount: 0, expiration_ledger: a.expiration_ledger }
            } else {
                a
            },
            None => AllowanceValue { amount: 0, expiration_ledger: 0 },
        }
    }

    /// What `spender` may still move from `from` at ledger `now`: zero when
    /// there is no approval or it has expired.
    pub fn allowance(&self, from: Address, spender: Address, now: u32) -> (r: i128)
        requires
            self.wf(),
        ensures
            r == self.current_allowance(from, spender, now).amount,
    {
        self.read_allowance(from, spender, now).amount
    }

    /// The checks of `approve`, in order.
    pub open spec fn approve_error(&self, amount: i128, expiration_ledger: u32, now: u32) -> Option<Error> {
        if amount < 0 {
            Some(Error::InvalidAmount)
        } else if self.metadata.is_none() {
            Some(Error::NotInitialized)
        } else if self.meta().paused {
            Some(Error::Paused)
        } else if amount > 0 && expiration_ledger < now {
            Some(Error::InvalidExpirationLedger)
        } else {
            None
        }
    }

    /// Let `spender` move up to `amount` of `from`'s tokens until
    /// `expiration_ledger`; an amount of 0 revokes the approval.
    pub fn approve(
        &mut self,
        from: Address,
        spender: Address,
        amount: i128,
        expiration_ledger: u32,
        now: u32,
    ) -> (r: Result<(), Error>)
        requires
            old(self).wf(),
        ensures
            final(self).wf(),
            match old(self).approve_error(amount, expiration_ledger, now) {
                Some(e) => r == Err::<(), Error>(e) && *final(self) == *old(self),
                None => r is Ok && final(self).allowances@ == old(self).allowances@.insert(
                    AddressPair { first: from, second: spender },
                    AllowanceValue { amount, expiration_ledger },
                ) && final(self).metadata == old(self).metadata && final(self).balances
                    == old(self).balances && final(self).pending_upgrade == old(self).pending_upgrade,
            },
    {
        if amount < 0 {
            return Err(Error::InvalidAmount);
        }
        let paused = match &self.metadata {
            None => {
                return Err(Error::NotInitialized);
            },
            Some(m) => m.paused,
        };
        if paused {
            return Err(Error::Paused);
        }
        if amount > 0 && expiration_ledger < now {
            return Err(Error::InvalidExpirationLedger);
        }
        self.allowances.insert(
            AddressPair { first: from, second: spender },
            AllowanceValue { amount, expiration_ledger },
        );
        Ok(())
    }

    /// The checks of spending `amount` of the approval `from` gave `spender`.
    pub open spec fn spend_error(&self, from: Address, spender: Address, amount: i128, now: u32) -> Option<
        Error,
    > {
        let cur = self.current_allowance(from, spender, now);
        if cur.amount < amount {
            Some(Error::InsufficientAllowance)
        } else if cur.amount - amount > 0 && cur.expiration_ledger < now {
            Some(Error::InvalidExpirationLedger)
        } else {
            None
        }
    }

    /// The approvals after spending `amount` of the one `from` gave `spender`.
    pub open spec fn spent(&self, from: Address, spender: Address, amount: i128, now: u32) -> Map<
        AddressPair,
        AllowanceValue,
    > {
        let cur = self.current_allowance(from, spender, now);
        self.allowances@.insert(
            AddressPair { first: from, second: spender },
            AllowanceValue {
                amount: (cur.amount - amount) as i128,
                expiration_ledger: cur.expiration_ledger,
            },
        )
    }

    fn spend_allowance(&mut self, from: Address, spender: Address, amount: i128, now: u32) -> (r: Result<
        (),
        Error,
    >)
        requires
            old(self).wf(),
            amount > 0,
        ensures
            final(self).wf(),
            match old(self).spend_error(from, spender, amount, now) {
                Some(e) => r == Err::<(), Error>(e) && *final(self) == *old(self),
                None => r is Ok && final(self).allowances@ == old(self).spent(from, spender, amount, now)
                    && final(self).metadata == old(self).metadata && final(self).balances
                    == old(self).balances && final(self).pending_upgrade == old(self).pending_upgrade,
            },
    {
        let cur = self.read_allowance(from, spender, now);
        if cur.amount < amount {
            return Err(Error::InsufficientAllowance);
        }
        let remaining = cur.amount - amount;
        if remaining > 0 && cur.expiration_ledger < now {
            return Err(Error::InvalidExpirationLedger);
        }
        self.allowances.insert(
            AddressPair { first: from, second: spender },
            AllowanceValue { amount: remaining, expiration_ledger: cur.expiration_ledger },
        );
        Ok(())
    }

    /// The checks of `transfer_from`, in order.
    pub open spec fn transfer_from_error(
        &self,
        spender: Address,
        from: Address,
        to: Address,
        amount: i128,
        now: u32,
        from_allowed: bool,
        to_allowed: bool,
    ) -> Option<Error> {
        if amount <= 0 {
            Some(Error::InvalidAmount)
        } else if self.metadata.is_none() {
            Some(Error::NotInitialized)
        } else if self.meta().paused {
            Some(Error::Paused)
        } else if !from_allowed {
            Some(Error::SenderNotCompliant)
        } else if !to_allowed {
            Some(Error::RecipientNotCompliant)
        } else if self.spend_error(from, spender, amount, now).is_some() {
            self.spend_error(from, spender, amount, now)
        } else if self.balance_of(from) < amount {
            Some(Error::InsufficientBalance)
        } else if from != to && self.balance_of(to) + amount > i128::MAX {
            Some(Error::Overflow)
        } else {
            None
        }
    }

    /// Transfer `amount` from `from` to `to` on `spender`'s approval. Both
    /// parties must pass the compliance check, as for `transfer`. Returns the new balances
    /// of the sender and the recipient.
    pub fn transfer_from(
        &mut self,
        spender: Address,
        from: Address,
        to: Address,
        amount: i128,
        now: u32,
        from_allowed: bool,
        to_allowed: bool,
    ) -> (r: Result<(i128, i128), Error>)
        requires
            old(self).wf(),
        ensures
            final(self).wf(),
            r is Ok ==> {
                let key = AddressPair { first: from, second: spender };
                &&& old(self).allowances@.contains_key(key)
                &&& amount <= old(self).allowances@[key].amount
                &&& now <= old(self).allowances@[key].expiration_ledger
                &&& final(self).allowances@[key] == (AllowanceValue {
                    amount: (old(self).allowances@[key].amount - amount) as i128,
                    expiration_ledger: old(self).allowances@[key].expiration_ledger,
                })
            },
            match old(self).transfer_from_error(spender, from, to, amount, now, from_allowed, to_allowed) {
                Some(e) => r == Err::<(i128, i128), Error>(e) && *final(self) == *old(self),
                None => {
                    &&& r == Ok::<(i128, i128), Error>(
                        if from == to {
                            (old(self).balance_of(from) as i128, old(self).balance_of(from) as i128)
                        } else {
                            (
                                (old(self).balance_of(from) - amount) as i128,
                                (old(self).balance_of(to) + amount) as i128,
                            )
                        },
                    )
                    &&& final(self).allowances@ == old(self).spent(from, spender, amount, now)
                    &&& final(self).balances@ == old(self).moved(from, to, amount)
                    &&& final(self).metadata == old(self).metadata
                    &&& final(self).pending_upgrade == old(self).pending_upgrade
                },
            },
    {
        if amount <= 0 {
            return Err(Error::InvalidAmount);
        }
        let paused = match &self.metadata {
            None => {
                return Err(Error::NotInitialized);
            },
            Some(m) => m.paused,
        };
        if paused {
            return Err(Error::Paused);
        }
        if !from_allowed {
            return Err(Error::SenderNotCompliant);
        }
        if !to_allowed {
            return Err(Error::RecipientNotCompliant);
        }
        let cur = self.read_allowance(from, spender, now);
        if cur.amount < amount {
            return Err(Error::InsufficientAllowance);
        }
        if cur.amount - amount > 0 && cur.expiration_ledger < now {
            return Err(Error::InvalidExpirationLedger);
        }
        let from_bal = self.balances.get_amount(&from);
        if from_bal < amount {
            return Err(Error::InsufficientBalance);
        }
        let same = from.equals(&to);
        if !same && self.balances.get_amount(&to) > i128::MAX - amount {
            return Err(Error::Overflow);
        }
        self.spend_allowance(from, spender, amount, now)?;
        if same {
            return Ok((from_bal, from_bal));
        }
        let r = self.move_balance(from, to, amount);
        Ok(r)
    }

    /// The checks of `burn_from`, in order.
    pub open spec fn burn_from_error(
        &self,
        spender: Address,
        from: Address,
        amount: i128,
        now: u32,
        from_allowed: bool,
    ) -> Option<Error> {
        if amount <= 0 {
            Some(Error::InvalidAmount)
        } else if self.metadata.is_none() {
            Some(Error::NotInitialized)
        } else if self.meta().paused {
            Some(Error::Paused)
        } else if !from_allowed {
            Some(Error::SenderNotCompliant)
        } else if self.spend_error(from, spender, amount, now).is_some() {
            self.spend_error(from, spender, amount, now)
        } else if self.balance_of(from) < amount {
            Some(Error::InsufficientBalance)
        } else if self.meta().total_supply - amount < i128::MIN {
            Some(Error::Overflow)
        } else {
            None
        }
    }

    /// Burn `amount` of `from`'s tokens on `spender`'s approval.
    pub fn burn_from(
        &mut self,
        spender: Address,
        from: Address,
        amount: i128,
        now: u32,
        from_allowed: bool,
    ) -> (r: Result<(), Error>)
        requires
            old(self).wf(),
        ensures
            final(self).wf(),
            r is Ok ==> {
                let key = AddressPair { first: from, second: spender };
                &&& old(self).allowances@.contains_key(key)
                &&& amount <= old(self).allowances@[key].amount
                &&& now <= old(self).allowances@[key].expiration_ledger
                &&& final(self).allowances@[key] == (AllowanceValue {
                    amount: (old(self).allowances@[key].amount - amount) as i128,
                    expiration_ledger: old(self).allowances@[key].expiration_ledger,
                })
            },
            match old(self).burn_from_error(spender, from, amount, now, from_allowed) {
                Some(e) => r == Err::<(), Error>(e) && *final(self) == *old(self),
                None => {
                    &&& r is Ok
                    &&& final(self).allowances@ == old(self).spent(from, spender, amount, now)
                    &&& final(self).metadata == Some(
                        AssetMetadata {
                            total_supply: (old(self).meta().total_supply - amount) as i128,
                            ..old(self).meta()
                        },
                    )
                    &&& final(self).balances@ == old(self).balances@.insert(
                        from,
                        (old(self).balance_of(from) - amount) as i128,
                    )
                    &&& final(self).pending_upgrade == old(self).pending_upgrade
                },
            },
    {
        if amount <= 0 {
            return Err(Error::InvalidAmount);
        }
        let (paused, supply) = match &self.metadata {
            None => {
                return Err(Error::NotInitialized);
            },
            Some(m) => (m.paused, m.total_supply),
        };
        if paused {
            return Err(Error::Paused);
        }
        if !from_allowed {
            return Err(Error::SenderNotCompliant);
        }
        let cur = self.read_allowance(from, spender, now);
        if cur.amount < amount {
            return Err(Error::InsufficientAllowance);
        }
        if cur.amount - amount > 0 && cur.expiration_ledger < now {
            return Err(Error::InvalidExpirationLedger);
        }
        let from_bal = self.balances.get_amount(&from);
        if from_bal < amount {
            return Err(Error::InsufficientBalance);
        }
        if supply < i128::MIN + amount {
            return Err(Error::Overflow);
        }
        self.spend_allowance(from, spender, amount, now)?;
        self.balances.set_amount(from, from_bal - amount);
        if let Some(m) = &mut self.metadata {
            m.total_supply = supply - amount;
        }
        Ok(())
    }

    /// Propose upgrading to `new_wasm_hash`; it can be applied once
    /// `UPGRADE_TIMELOCK_LEDGERS` ledgers have passed. Admin only.
    pub fn propose_upgrade(&mut self, admin: Address, new_wasm_hash: [u8; 32], now: u32) -> (r: Result<
        PendingUpgrade,
        Error,
    >)
        requires
            old(self).wf(),
        ensures
            final(self).wf(),
            match old(self).admin_error(admin) {
                Some(e) => r == Err::<PendingUpgrade, Error>(e) && *final(self) == *old(self),
                None => {
                    let p = PendingUpgrade {
                        wasm_hash: new_wasm_hash,
                        ready_at: if now + UPGRADE_TIMELOCK_LEDGERS > u32::MAX {
                            u32::MAX
                        } else {
                            (now + UPGRADE_TIMELOCK_LEDGERS) as u32
                        },
                    };
                    r == Ok::<PendingUpgrade, Error>(p) && final(self).pending_upgrade == Some(p)
                        && final(self).metadata == old(self).metadata && final(self).balances
                        == old(self).balances && final(self).allowances == old(self).allowances
                },
            },
    {
        self.require_admin(&admin)?;
        let ready_at = now.saturating_add(UPGRADE_TIMELOCK_LEDGERS);
        let pending = PendingUpgrade { wasm_hash: new_wasm_hash, ready_at };
        self.pending_upgrade = Some(pending);
        Ok(pending)
    }

    /// Cancel the pending upgrade. Admin only.
    pub fn cancel_upgrade(&mut self, admin: Address) -> (r: Result<(), Error>)
        requires
            old(self).wf(),
        ensures
            final(self).wf(),
            match (if old(self).admin_error(admin).is_some() {
                old(self).admin_error(admin)
            } else if old(self).pending_upgrade.is_none() {
                Some(Error::NoPendingUpgrade)
            } else {
                None
            }) {
                Some(e) => r == Err::<(), Error>(e) && *final(self) == *old(self),
                None => r is Ok && final(self).pending_upgrade.is_none() && final(self).metadata
                    == old(self).metadata && final(self).balances == old(self).balances
                    && final(self).allowances == old(self).allowances,
            },
    {
        self.require_admin(&admin)?;
        if self.pending_upgrade.is_none() {
            return Err(Error::NoPendingUpgrade);
        }
        self.pending_upgrade = None;
        Ok(())
    }

    /// Apply the pending upgrade once its timelock has passed. Admin only.
    /// Returns the code hash to switch to.
    pub fn upgrade(&mut self, admin: Address, now: u32) -> (r: Result<[u8; 32], Error>)
        requires
            old(self).wf(),
        ensures
            final(self).wf(),
            match (if old(self).admin_error(admin).is_some() {
                old(self).admin_error(admin)
            } else if old(self).pending_upgrade.is_none() {
                Some(Error::NoPendingUpgrade)
            } else if now < old(self).pending_upgrade.unwrap().ready_at {
                Some(Error::UpgradeNotReady)
            } else {
                None
            }) {
                Some(e) => r == Err::<[u8; 32], Error>(e) && *final(self) == *old(self),
                None => r == Ok::<[u8; 32], Error>(old(self).pending_upgrade.unwrap().wasm_hash)
                    && final(self).pending_upgrade.is_none() && final(self).metadata
                    == old(self).metadata && final(self).balances == old(self).balances
                    && final(self).allowances == old(self).allowances,
            },
    {
        self.require_admin(&admin)?;
        let pending = match self.pending_upgrade {
            None => {
                return Err(Error::NoPendingUpgrade);
            },
            Some(p) => p,
        };
        if now < pending.ready_at {
            return Err(Error::UpgradeNotReady);
        }
        self.pending_upgrade = None;
        Ok(pending.wasm_hash)
    }

    /// The upgrade awaiting its timelock, if any.
    pub fn get_pending_upgrade(&self) -> (r: Option<PendingUpgrade>)
        ensures
            r == self.pending_upgrade,
    {
        self.pending_upgrade
    }
}

/// Only parties the compliance check lets through take part in a transfer, and
/// never while the token is paused: a transfer that passes its checks had a
/// positive amount, an unpaused token and the compliance check's approval of both parties.
pub proof fn law_transfer_requires_compliance(
    c: &AssetTokenContract,
    from: Address,
    to: Address,
    amount: i128,
    from_allowed: bool,
    to_allowed: bool,
)
    requires
        c.transfer_error(from, to, amount, from_allowed, to_allowed).is_none(),
    ensures
        from_allowed,
        to_allowed,
        amount > 0,
        c.metadata.is_some(),
        !c.meta().paused,
        c.balance_of(from) >= amount,
{
}

/// A mint that passes its checks was made by the admin, on an unpaused token,
/// to a recipient the compliance check approved.
pub proof fn law_mint_requires_compliance(
    c: &AssetTokenContract,
    admin: Address,
    to: Address,
    amount: i128,
    to_allowed: bool,
)
    requires
        c.mint_error(admin, to, amount, to_allowed).is_none(),
    ensures
        to_allowed,
        amount > 0,
        c.metadata.is_some(),
        c.meta().admin == admin,
        !c.meta().paused,
{
}

/// Pausing stops circulation: on a paused token every transfer, transfer on
/// approval, burn on approval and mint by the admin with a positive amount is
/// refused with `Paused`.
pub proof fn law_pause_stops_circulation(
    c: &AssetTokenContract,
    spender: Address,
    from: Address,
    to: Address,
    amount: i128,
    now: u32,
    from_allowed: bool,
    to_allowed: bool,
)
    requires
        c.metadata.is_some(),
        c.meta().paused,
        amount > 0,
    ensures
        c.transfer_error(from, to, amount, from_allowed, to_allowed) == Some(Error::Paused),
        c.transfer_from_error(spender, from, to, amount, now, from_allowed, to_allowed) == Some(
            Error::Paused,
        ),
        c.burn_from_error(spender, from, amount, now, from_allowed) == Some(Error::Paused),
        c.mint_error(c.meta().admin, to, amount, to_allowed) == Some(Error::Paused),
{
}

/// Since the balances add up to the supply, a transfer between two holders
/// never overflows the recipient's balance.
pub proof fn law_transfer_never_overflows(
    c: &AssetTokenContract,
    from: Address,
    to: Address,
    amount: i128,
    from_allowed: bool,
    to_allowed: bool,
)
    requires
        c.wf(),
    ensures
        c.transfer_error(from, to, amount, from_allowed, to_allowed) != Some(Error::Overflow),
{
    if c.metadata.is_some() && from != to {
        c.balances.lemma_two_amounts_bounded(from, to);
    }
}

/// A transfer moves value between the two parties and creates none: the two
/// balances after it add up to the two before it, and every other balance is
/// unchanged.
pub proof fn law_transfer_conserves_value(c: &AssetTokenContract, from: Address, to: Address, amount: i128, other: Address)
    requires
        c.wf(),
        from != to,
        other != from,
        other != to,
        0 < amount <= c.balance_of(from),
        c.balance_of(to) + amount <= i128::MAX,
    ensures
        c.moved(from, to, amount)[from] + c.moved(from, to, amount)[to] == c.balance_of(from) + c.balance_of(
            to,
        ),
        c.moved(from, to, amount).contains_key(other) == c.balances@.contains_key(other),
        c.balances@.contains_key(other) ==> c.moved(from, to, amount)[other] == c.balances@[other],
{
}

/// An approval reads back: once `approve` has recorded `amount` for `spender`
/// at ledger `now`, the allowance at `now` is that amount (an approval with a
/// positive amount cannot already be expired, or it would have been refused).
pub proof fn law_approval_reads_back(
    before: &AssetTokenContract,
    after: &AssetTokenContract,
    from: Address,
    spender: Address,
    amount: i128,
    expiration_ledger: u32,
    now: u32,
)
    requires
        before.approve_error(amount, expiration_ledger, now).is_none(),
        after.allowances@ == before.allowances@.insert(
            AddressPair { first: from, second: spender },
            AllowanceValue { amount, expiration_ledger },
        ),
    ensures
        after.current_allowance(from, spender, now).amount == amount,
{
}

/// Pausing does not block redemption: on a paused token, a holder the
/// compliance check approves can still burn any positive amount up to its
/// balance.
pub proof fn law_burn_works_while_paused(c: &AssetTokenContract, from: Address, amount: i128)
    requires
        c.wf(),
        c.metadata.is_some(),
        c.meta().paused,
        0 < amount <= c.balance_of(from),
    ensures
        c.burn_error(from, amount, true).is_none(),
{
    c.balances.lemma_amount_bounded(from);
}

/// Spending part of an approval keeps its expiry: the approval left after
/// spending `amount` holds the approved amount less `amount` and the same
/// expiration ledger as before, so what is left stays usable until that ledger.
pub proof fn law_spending_keeps_the_expiry(
    c: &AssetTokenContract,
    from: Address,
    spender: Address,
    amount: i128,
    now: u32,
    t: u32,
)
    requires
        c.wf(),
        amount > 0,
        c.spend_error(from, spender, amount, now).is_none(),
    ensures
        ({
            let key = AddressPair { first: from, second: spender };
            let left = c.spent(from, spender, amount, now)[key];
            &&& c.allowances@.contains_key(key)
            &&& left.amount == c.allowances@[key].amount - amount
            &&& left.expiration_ledger == c.allowances@[key].expiration_ledger
            &&& now <= t <= left.expiration_ledger ==> !(left.amount > 0 && left.expiration_ledger < t)
        }),
{
}

/// An approval covers spends up to its full amount: `burn_from` succeeds when
/// the token is initialized and not paused, the holder passes the compliance
/// check, the amount is positive, at most the approved amount (an equal amount
/// is enough) and at most the holder's balance, and the approval has not
/// expired.
pub proof fn law_burn_from_within_approval_succeeds(
    c: &AssetTokenContract,
    spender: Address,
    from: Address,
    amount: i128,
    now: u32,
)
    requires
        c.wf(),
        c.metadata.is_some(),
        !c.meta().paused,
        c.allowances@.contains_key(AddressPair { first: from, second: spender }),
        0 < amount <= c.allowances@[AddressPair { first: from, second: spender }].amount,
        now <= c.allowances@[AddressPair { first: from, second: spender }].expiration_ledger,
        amount <= c.balance_of(from),
    ensures
        c.burn_from_error(spender, from, amount, now, true).is_none(),
{
    c.balances.lemma_amount_bounded(from);
}

/// Likewise `transfer_from` succeeds for an approved amount (an equal amount is
/// enough) that the holder holds, between two parties the compliance check
/// approves, on an initialized token that is not paused.
pub proof fn law_transfer_from_within_approval_succeeds(
    c: &AssetTokenContract,
    spender: Address,
    from: Address,
    to: Address,
    amount: i128,
    now: u32,
)
    requires
        c.wf(),
        c.metadata.is_some(),
        !c.meta().paused,
        c.allowances@.contains_key(AddressPair { first: from, second: spender }),
        0 < amount <= c.allowances@[AddressPair { first: from, second: spender }].amount,
        now <= c.allowances@[AddressPair { first: from, second: spender }].expiration_ledger,
        amount <= c.balance_of(from),
    ensures
        c.transfer_from_error(spender, from, to, amount, now, true, true).is_none(),
{
    if from != to {
        c.balances.lemma_two_amounts_bounded(from, to);
    }
}

/// A fresh token accepts any metadata whose supply and valuation are not
/// negative and whose texts each lie within their own bounds: a name of 1 to
/// 64 bytes, a symbol of 1 to 16, an asset type of 1 to 32 and a description
/// of 1 to 256, when the compliance check approves the admin.
pub proof fn law_initialize_accepts_valid_metadata(
    c: &AssetTokenContract,
    name: Seq<u8>,
    symbol: Seq<u8>,
    asset_type: Seq<u8>,
    total_supply: i128,
    asset_description: Seq<u8>,
    valuation: i128,
)
    requires
        c.metadata.is_none(),
        total_supply >= 0,
        valuation >= 0,
        1 <= name.len() <= 64,
        1 <= symbol.len() <= 16,
        1 <= asset_type.len() <= 32,
        1 <= asset_description.len() <= 256,
    ensures
        c.initialize_error(name, symbol, asset_type, total_supply, asset_description, valuation, true).is_none(),
{
}

/// `initialize` refuses metadata with `InvalidInput` only when some text lies
/// outside its own bounds (name 1 to 64 bytes, symbol 1 to 16, asset type 1 to
/// 32, description 1 to 256).
pub proof fn law_invalid_input_names_a_bad_text(
    c: &AssetTokenContract,
    name: Seq<u8>,
    symbol: Seq<u8>,
    asset_type: Seq<u8>,
    total_supply: i128,
    asset_description: Seq<u8>,
    valuation: i128,
    admin_allowed: bool,
)
    requires
        c.initialize_error(name, symbol, asset_type, total_supply, asset_description, valuation, admin_allowed)
            == Some(Error::InvalidInput),
    ensures
        !(1 <= name.len() <= 64) || !(1 <= symbol.len() <= 16) || !(1 <= asset_type.len() <= 32) || !(1
            <= asset_description.len() <= 256),
{
}

} // verus!
