//! An on-chain index of tokenized assets: each issuer registers its asset
//! token, the registry assigns increasing ids from 1, and it reports the total
//! value locked (TVL) across active assets.
use vstd::prelude::*;

use crate::address::Address;
use crate::seq_facts::lemma_filter_take_step;
use crate::text::{bytes_equal, copy_bytes};

verus! {

/// A registered asset.
pub struct AssetEntry {
    pub id: u64,
    pub token_contract: Address,
    pub issuer: Address,
    pub name: Vec<u8>,
    pub asset_type: Vec<u8>,
    /// Valuation in USD cents.
    pub valuation: i128,
    /// Ledger sequence at registration.
    pub created_at: u32,
    pub active: bool,
}

/// An entry as a value, with its texts as byte sequences.
pub struct AssetEntryView {
    pub id: u64,
    pub token_contract: Address,
    pub issuer: Address,
    pub name: Seq<u8>,
    pub asset_type: Seq<u8>,
    pub valuation: i128,
    pub created_at: u32,
    pub active: bool,
}

impl View for AssetEntry {
    type V = AssetEntryView;

    open spec fn view(&self) -> AssetEntryView {
        AssetEntryView {
            id: self.id,
            token_contract: self.token_contract,
            issuer: self.issuer,
            name: self.name@,
            asset_type: self.asset_type@,
            valuation: self.valuation,
            created_at: self.created_at,
            active: self.active,
        }
    }
}

impl AssetEntry {
    /// A copy of the entry.
    pub fn duplicate(&self) -> (r: AssetEntry)
        ensures
            r@ == self@,
    {
        AssetEntry {
            id: self.id,
            token_contract: self.token_contract,
            issuer: self.issuer,
            name: copy_bytes(&self.name),
            asset_type: copy_bytes(&self.asset_type),
            valuation: self.valuation,
            created_at: self.created_at,
            active: self.active,
        }
    }
}

/// Errors, in the order of their numeric codes (1 to 6).
#[derive(Clone, Copy, Debug, PartialEq, Eq, Structural)]
pub enum Error {
    AlreadyInitialized,
    NotInitialized,
    Unauthorized,
    AssetNotFound,
    InvalidValuation,
    DuplicateToken,
}

/// The views of a list of entries.
pub open spec fn views(s: Seq<AssetEntry>) -> Seq<AssetEntryView> {
    s.map_values(|e: AssetEntry| e@)
}

/// Whether an entry belongs to `issuer` (when given) and has type `asset_type`
/// (when given).
pub open spec fn selects(e: AssetEntryView, issuer: Option<Address>, asset_type: Option<Seq<u8>>) -> bool {
    (match issuer {
        Some(a) => e.issuer == a,
        None => true,
    }) && (match asset_type {
        Some(t) => e.asset_type == t,
        None => true,
    })
}

pub open spec fn type_view(asset_type: Option<&Vec<u8>>) -> Option<Seq<u8>> {
    match asset_type {
        Some(t) => Some(t@),
        None => None,
    }
}

/// Total value locked: the sum of the valuations of the active entries.
pub open spec fn tvl(s: Seq<AssetEntryView>) -> int
    decreases s.len(),
{
    if s.len() == 0 {
        0
    } else {
        tvl(s.drop_last()) + if s.last().active {
            s.last().valuation as int
        } else {
            0
        }
    }
}

/// With no negative valuation, a prefix locks no more value than the whole.
pub proof fn lemma_tvl_prefix(s: Seq<AssetEntryView>, k: int)
    requires
        0 <= k <= s.len(),
        forall|i: int| 0 <= i < s.len() ==> #[trigger] s[i].valuation >= 0,
    ensures
        0 <= tvl(s.take(k)) <= tvl(s),
    decreases s.len(),
{
    if k == s.len() {
        assert(s.take(k) =~= s);
        lemma_tvl_nonneg(s);
    } else {
        assert(s.drop_last().take(k) =~= s.take(k));
        lemma_tvl_prefix(s.drop_last(), k);
    }
}

pub proof fn lemma_tvl_nonneg(s: Seq<AssetEntryView>)
    requires
        forall|i: int| 0 <= i < s.len() ==> #[trigger] s[i].valuation >= 0,
    ensures
        tvl(s) >= 0,
    decreases s.len(),
{
    if s.len() > 0 {
        lemma_tvl_nonneg(s.drop_last());
    }
}

/// Changing one entry changes the TVL by the difference of what the two
/// versions of the entry lock.
pub proof fn lemma_tvl_update(s: Seq<AssetEntryView>, i: int, e: AssetEntryView)
    requires
        0 <= i < s.len(),
    ensures
        tvl(s.update(i, e)) == tvl(s) - (if s[i].active {
            s[i].valuation as int
        } else {
            0
        }) + (if e.active {
            e.valuation as int
        } else {
            0
        }),
    decreases s.len(),
{
    let t = s.update(i, e);
    if i == s.len() - 1 {
        assert(t.drop_last() =~= s.drop_last());
    } else {
        assert(t.drop_last() =~= s.drop_last().update(i, e));
        lemma_tvl_update(s.drop_last(), i, e);
    }
}

/// The storage of the registry: its admin and the registered entries in id
/// order.
pub struct RegistryContract {
    pub admin: Option<Address>,
    pub assets: Vec<AssetEntry>,
}

impl RegistryContract {
    /// The entries as values.
    pub open spec fn entries(&self) -> Seq<AssetEntryView> {
        views(self.assets@)
    }

    /// The storage invariant: entry `i` has id `i + 1`; no valuation is
    /// negative; no token contract is registered twice; ids fit in `u64`; an
    /// uninitialized registry holds no entry.
    pub open spec fn wf(&self) -> bool {
        &&& self.assets@.len() <= u64::MAX
        &&& forall|i: int| 0 <= i < self.assets@.len() ==> (#[trigger] self.assets@[i]).id == i + 1
        &&& forall|i: int| 0 <= i < self.assets@.len() ==> (#[trigger] self.assets@[i]).valuation >= 0
        &&& forall|i: int, j: int|
            0 <= i < j < self.assets@.len() ==> (#[trigger] self.assets@[i]).token_contract
                != (#[trigger] self.assets@[j]).token_contract
        &&& self.admin.is_none() ==> self.assets@.len() == 0
    }

    /// Whether `token` already has an entry.
    pub open spec fn has_token(&self, token: Address) -> bool {
        exists|i: int| 0 <= i < self.assets@.len() && (#[trigger] self.assets@[i]).token_contract == token
    }

    /// The checks of `register_asset`, in order; `token_admin` is the admin
    /// that the token contract reports.
    pub open spec fn register_error(
        &self,
        issuer: Address,
        token_contract: Address,
        valuation: i128,
        token_admin: Address,
    ) -> Option<Error> {
        if self.admin.is_none() {
            Some(Error::NotInitialized)
        } else if valuation < 0 {
            Some(Error::InvalidValuation)
        } else if token_admin != issuer {
            Some(Error::Unauthorized)
        } else if self.has_token(token_contract) {
            Some(Error::DuplicateToken)
        } else {
            None
        }
    }

    /// Whether this storage meets the storage invariant; storage loaded from
    /// elsewhere is checked with this before use.
    pub fn is_well_formed(&self) -> (r: bool)
        ensures
            r == self.wf(),
    {
        let n = self.assets.len();
        if self.admin.is_none() && n != 0 {
            return false;
        }
        let mut j: usize = 0;
        while j < n
            invariant
                n == self.assets@.len(),
                0 <= j <= n,
                forall|i: int| 0 <= i < j ==> (#[trigger] self.assets@[i]).id == i + 1,
                forall|i: int| 0 <= i < j ==> (#[trigger] self.assets@[i]).valuation >= 0,
                forall|a: int, b: int|
                    0 <= a < b < j ==> (#[trigger] self.assets@[a]).token_contract
                        != (#[trigger] self.assets@[b]).token_contract,
            decreases n - j,
        {
            if self.assets[j].id != j as u64 + 1 || self.assets[j].valuation < 0 {
                return false;
            }
            let mut i: usize = 0;
            while i < j
                invariant
                    n == self.assets@.len(),
                    0 <= i <= j < n,
                    forall|a: int| 0 <= a < i ==> (#[trigger] self.assets@[a]).token_contract
                        != self.assets@[j as int].token_contract,
                decreases j - i,
            {
                if self.assets[i].token_contract.equals(&self.assets[j].token_contract) {
                    return false;
                }
                i = i + 1;
            }
            j = j + 1;
        }
        true
    }

    /// Empty, uninitialized storage.
    pub fn new() -> (c: Self)
        ensures
            c.wf(),
            c.admin.is_none(),
            c.assets@.len() == 0,
    {
        RegistryContract { admin: None, assets: Vec::new() }
    }

    /// Initialize with an admin. Callable once.
    pub fn initialize(&mut self, admin: Address) -> (r: Result<(), Error>)
        requires
            old(self).wf(),
        ensures
            final(self).wf(),
            old(self).admin.is_some() ==> r == Err::<(), Error>(Error::AlreadyInitialized) && *final(self)
                == *old(self),
            old(self).admin.is_none() ==> r is Ok && final(self).admin == Some(admin)
                && final(self).assets@.len() == 0,
    {
        if self.admin.is_some() {
            return Err(Error::AlreadyInitialized);
        }
        self.admin = Some(admin);
        self.assets = Vec::new();
        Ok(())
    }

    fn has_token_exec(&self, token: &Address) -> (r: bool)
        ensures
            r == self.has_token(*token),
    {
        let n = self.assets.len();
        let mut i: usize = 0;
        while i < n
            invariant
                n == self.assets@.len(),
                0 <= i <= n,
                forall|j: int| 0 <= j < i ==> (#[trigger] self.assets@[j]).token_contract != *token,
            decreases n - i,
        {
            if self.assets[i].token_contract.equals(token) {
                return true;
            }
            i = i + 1;
        }
        false
    }

    /// Register a new asset token. `token_admin` is the admin that
    /// `token_contract` reports: only that admin may register the token, and a
    /// token can be registered once. Returns the new id.
    pub fn register_asset(
        &mut self,
        issuer: Address,
        token_contract: Address,
        name: Vec<u8>,
        asset_type: Vec<u8>,
        valuation: i128,
        token_admin: Address,
        now: u32,
    ) -> (r: Result<u64, Error>)
        requires
            old(self).wf(),
            old(self).assets@.len() < u64::MAX,
        ensures
            final(self).wf(),
            match old(self).register_error(issuer, token_contract, valuation, token_admin) {
                Some(e) => r == Err::<u64, Error>(e) && *final(self) == *old(self),
                None => {
                    &&& r == Ok::<u64, Error>((old(self).assets@.len() + 1) as u64)
                    &&& final(self).entries() == old(self).entries().push(
                        AssetEntryView {
                            id: (old(self).assets@.len() + 1) as u64,
                            token_contract,
                            issuer,
                            name: name@,
                            asset_type: asset_type@,
                            valuation,
                            created_at: now,
                            active: true,
                        },
                    )
                    &&& final(self).admin == old(self).admin
                },
            },
    {
        if self.admin.is_none() {
            return Err(Error::NotInitialized);
        }
        if valuation < 0 {
            return Err(Error::InvalidValuation);
        }
        if !token_admin.equals(&issuer) {
            return Err(Error::Unauthorized);
        }
        if self.has_token_exec(&token_contract) {
            return Err(Error::DuplicateToken);
        }
        let id = self.assets.len() as u64 + 1;
        let entry = AssetEntry {
            id,
            token_contract,
            issuer,
            name,
            asset_type,
            valuation,
            created_at: now,
            active: true,
        };
        self.assets.push(entry);
        proof {
            assert(self.entries() =~= old(self).entries().push(entry@));
        }
        Ok(id)
    }

    /// The entry with id `asset_id`.
    pub fn get_asset(&self, asset_id: u64) -> (r: Result<AssetEntry, Error>)
        requires
            self.wf(),
        ensures
            match r {
                Ok(e) => 1 <= asset_id <= self.assets@.len() && e@ == self.entries()[asset_id - 1],
                Err(err) => !(1 <= asset_id <= self.assets@.len()) && err == Error::AssetNotFound,
            },
    {
        if asset_id == 0 || asset_id > self.assets.len() as u64 {
            return Err(Error::AssetNotFound);
        }
        let e = self.assets[(asset_id - 1) as usize].duplicate();
        Ok(e)
    }

    /// Copies of the entries of the given issuer and of the given type (either
    /// filter may be absent), in id order.
    fn select(&self, issuer: Option<Address>, asset_type: Option<&Vec<u8>>) -> (r: Vec<AssetEntry>)
        ensures
            views(r@) == self.entries().filter(|e: AssetEntryView| selects(e, issuer, type_view(asset_type))),
    {
        let ghost keep = |e: AssetEntryView| selects(e, issuer, type_view(asset_type));
        let n = self.assets.len();
        let mut out: Vec<AssetEntry> = Vec::new();
        let mut i: usize = 0;
        while i < n
            invariant
                n == self.assets@.len(),
                0 <= i <= n,
                views(out@) == self.entries().take(i as int).filter(keep),
                keep == (|e: AssetEntryView| selects(e, issuer, type_view(asset_type))),
            decreases n - i,
        {
            proof {
                lemma_filter_take_step(self.entries(), keep, i as int);
                assert(self.entries()[i as int] == self.assets@[i as int]@);
            }
            let e = &self.assets[i];
            let issuer_ok = match issuer {
                Some(a) => e.issuer.equals(&a),
                None => true,
            };
            let type_ok = match asset_type {
                Some(t) => bytes_equal(&e.asset_type, t),
                None => true,
            };
            if issuer_ok && type_ok {
                let c = e.duplicate();
                proof {
                    assert(views(out@.push(c)) =~= views(out@).push(c@));
                }
                out.push(c);
            }
            i = i + 1;
        }
        proof {
            assert(self.entries().take(n as int) =~= self.entries());
        }
        out
    }

    /// All entries registered by `issuer`, in id order.
    pub fn get_assets_by_issuer(&self, issuer: Address) -> (r: Vec<AssetEntry>)
        ensures
            views(r@) == self.entries().filter(|e: AssetEntryView| e.issuer == issuer),
    {
        let r = self.select(Some(issuer), None);
        proof {
            let f = |e: AssetEntryView| selects(e, Some(issuer), type_view(None));
            let g = |e: AssetEntryView| e.issuer == issuer;
            assert(f =~= g);
        }
        r
    }

    /// All entries of the given asset type, in id order.
    pub fn get_assets_by_type(&self, asset_type: &Vec<u8>) -> (r: Vec<AssetEntry>)
        ensures
            views(r@) == self.entries().filter(|e: AssetEntryView| e.asset_type == asset_type@),
    {
        let r = self.select(None, Some(asset_type));
        proof {
            let f = |e: AssetEntryView| selects(e, None, type_view(Some(asset_type)));
            let g = |e: AssetEntryView| e.asset_type == asset_type@;
            assert(f =~= g);
        }
        r
    }

    /// Every entry, in id order.
    pub fn get_all_assets(&self) -> (r: Vec<AssetEntry>)
        ensures
            views(r@) == self.entries(),
    {
        let r = self.select(None, None);
        proof {
            let f = |e: AssetEntryView| selects(e, None, type_view(None));
            let g = |e: AssetEntryView| true;
            assert(f =~= g);
            crate::seq_facts::lemma_filter_all(self.entries());
        }
        r
    }

    /// Mark entry `asset_id` inactive. Admin only. It no longer counts
    /// towards the TVL.
    pub fn deactivate_asset(&mut self, admin: Address, asset_id: u64) -> (r: Result<(), Error>)
        requires
            old(self).wf(),
        ensures
            final(self).wf(),
            match (if old(self).admin.is_none() {
                Some(Error::NotInitialized)
            } else if old(self).admin != Some(admin) {
                Some(Error::Unauthorized)
            } else if !(1 <= asset_id <= old(self).assets@.len()) {
                Some(Error::AssetNotFound)
            } else {
                None
            }) {
                Some(e) => r == Err::<(), Error>(e) && *final(self) == *old(self),
                None => r is Ok && final(self).entries() == old(self).entries().update(
                    asset_id - 1,
                    AssetEntryView { active: false, ..old(self).entries()[asset_id - 1] },
                ) && final(self).admin == old(self).admin,
            },
    {
        match &self.admin {
            None => {
                return Err(Error::NotInitialized);
            },
            Some(a) => if !a.equals(&admin) {
                return Err(Error::Unauthorized);
            },
        }
        if asset_id == 0 || asset_id > self.assets.len() as u64 {
            return Err(Error::AssetNotFound);
        }
        let i = (asset_id - 1) as usize;
        let mut e = self.assets[i].duplicate();
        e.active = false;
        self.assets.set(i, e);
        proof {
            assert(self.entries() =~= old(self).entries().update(
                asset_id - 1,
                AssetEntryView { active: false, ..old(self).entries()[asset_id - 1] },
            ));
        }
        Ok(())
    }

    /// Record a new valuation for entry `asset_id`. Callable by the registry
    /// admin or by the entry's issuer.
    pub fn update_asset_valuation(&mut self, caller: Address, asset_id: u64, new_valuation: i128) -> (r: Result<
        (),
        Error,
    >)
        requires
            old(self).wf(),
        ensures
            final(self).wf(),
            match (if old(self).admin.is_none() {
                Some(Error::NotInitialized)
            } else if new_valuation < 0 {
                Some(Error::InvalidValuation)
            } else if !(1 <= asset_id <= old(self).assets@.len()) {
                Some(Error::AssetNotFound)
            } else if old(self).admin != Some(caller) && old(self).entries()[asset_id - 1].issuer != caller {
                Some(Error::Unauthorized)
            } else {
                None
            }) {
                Some(e) => r == Err::<(), Error>(e) && *final(self) == *old(self),
                None => r is Ok && final(self).entries() == old(self).entries().update(
                    asset_id - 1,
                    AssetEntryView { valuation: new_valuation, ..old(self).entries()[asset_id - 1] },
                ) && final(self).admin == old(self).admin,
            },
    {
        let admin = match self.admin {
            None => {
                return Err(Error::NotInitialized);
            },
            Some(a) => a,
        };
        if new_valuation < 0 {
            return Err(Error::InvalidValuation);
        }
        if asset_id == 0 || asset_id > self.assets.len() as u64 {
            return Err(Error::AssetNotFound);
        }
        let i = (asset_id - 1) as usize;
        proof {
            assert(self.entries()[i as int] == self.assets@[i as int]@);
        }
        if !caller.equals(&admin) && !caller.equals(&self.assets[i].issuer) {
            return Err(Error::Unauthorized);
        }
        let mut e = self.assets[i].duplicate();
        e.valuation = new_valuation;
        self.assets.set(i, e);
        proof {
            assert(self.entries() =~= old(self).entries().update(
                asset_id - 1,
                AssetEntryView { valuation: new_valuation, ..old(self).entries()[asset_id - 1] },
            ));
        }
        Ok(())
    }

    /// The TVL, or `None` when it does not fit in an `i128`.
    pub fn checked_total_value_locked(&self) -> (r: Option<i128>)
        requires
            self.wf(),
        ensures
            match r {
                Some(v) => v == tvl(self.entries()),
                None => tvl(self.entries()) > i128::MAX,
            },
    {
        let n = self.assets.len();
        let mut total: i128 = 0;
        let mut i: usize = 0;
        proof {
            assert forall|j: int| 0 <= j < self.entries().len() implies #[trigger] self.entries()[j].valuation
                >= 0 by {
                assert(self.entries()[j] == self.assets@[j]@);
            }
        }
        while i < n
            invariant
                self.wf(),
                n == self.assets@.len(),
                0 <= i <= n,
                total == tvl(self.entries().take(i as int)),
                forall|j: int| 0 <= j < self.entries().len() ==> #[trigger] self.entries()[j].valuation >= 0,
            decreases n - i,
        {
            proof {
                assert(self.entries().take(i + 1).drop_last() =~= self.entries().take(i as int));
                assert(self.entries()[i as int] == self.assets@[i as int]@);
                lemma_tvl_prefix(self.entries(), i + 1);
            }
            if self.assets[i].active {
                let v = self.assets[i].valuation;
                if total > i128::MAX - v {
                    return None;
                }
                total = total + v;
            }
            i = i + 1;
        }
        proof {
            assert(self.entries().take(n as int) =~= self.entries());
        }
        Some(total)
    }

    /// Total value locked across active assets, in USD cents.
    pub fn total_value_locked(&self) -> (r: i128)
        requires
            self.wf(),
            tvl(self.entries()) <= i128::MAX,
        ensures
            r == tvl(self.entries()),
    {
        match self.checked_total_value_locked() {
            Some(v) => v,
            None => 0,
        }
    }

    /// Number of registered assets, active or not.
    pub fn asset_count(&self) -> (r: u64)
        requires
            self.wf(),
        ensures
            r == self.assets@.len(),
    {
        self.assets.len() as u64
    }

    /// The configured admin.
    pub fn get_admin(&self) -> (r: Result<Address, Error>)
        ensures
            match self.admin {
                Some(a) => r == Ok::<Address, Error>(a),
                None => r == Err::<Address, Error>(Error::NotInitialized),
            },
    {
        match self.admin {
            Some(a) => Ok(a),
            None => Err(Error::NotInitialized),
        }
    }
}

/// Deactivating an active entry removes exactly its valuation from the TVL.
pub proof fn law_deactivation_lowers_tvl(entries: Seq<AssetEntryView>, i: int)
    requires
        0 <= i < entries.len(),
        entries[i].active,
    ensures
        tvl(entries.update(i, AssetEntryView { active: false, ..entries[i] })) == tvl(entries)
            - entries[i].valuation,
{
    lemma_tvl_update(entries, i, AssetEntryView { active: false, ..entries[i] });
}

/// Re-valuing an entry moves the TVL by the change in valuation when the entry
/// is active, and leaves it alone otherwise.
pub proof fn law_revaluation_moves_tvl(entries: Seq<AssetEntryView>, i: int, v: i128)
    requires
        0 <= i < entries.len(),
    ensures
        tvl(entries.update(i, AssetEntryView { valuation: v, ..entries[i] })) == tvl(entries) + (if entries[i].active {
            v - entries[i].valuation
        } else {
            0
        }),
{
    lemma_tvl_update(entries, i, AssetEntryView { valuation: v, ..entries[i] });
}

/// Registering an entry adds its valuation to the TVL.
pub proof fn law_registration_adds_to_tvl(entries: Seq<AssetEntryView>, e: AssetEntryView)
    requires
        e.active,
    ensures
        tvl(entries.push(e)) == tvl(entries) + e.valuation,
{
    assert(entries.push(e).drop_last() =~= entries);
}

} // verus!
