//! KYC allowlist and jurisdiction rules: the compliance check that decides who may hold or
//! transfer a tokenized asset. Time is a ledger sequence number; an expiry of
//! `0` means the approval never expires.
use vstd::prelude::*;

use crate::address::{Address, MapKey};
use crate::keyed_map::{KeyedMap, lemma_map_of_contains, lemma_map_of_index};
use crate::seq_facts::{lemma_filter_take_step, lemma_filter_membership, lemma_filter_no_duplicates};

verus! {

/// Behaviour version of this contract.
pub const VERSION: u32 = 2;

/// Approval state of an address.
#[derive(Clone, Copy, Debug, PartialEq, Eq, Structural)]
pub enum ComplianceStatus {
    Approved,
    Pending,
    Rejected,
    Suspended,
}

/// A single KYC record for an address.
#[derive(Clone, Copy, Debug, PartialEq, Eq)]
pub struct KycRecord {
    pub address: Address,
    pub status: ComplianceStatus,
    /// Normalized two-letter country code, e.g. `*b"US"`.
    pub jurisdiction: [u8; 2],
    /// Ledger sequence at which the record was verified.
    pub verified_at: u32,
    /// Ledger sequence at which approval expires; `0` = never expires.
    pub expires_at: u32,
}

/// Errors, in the order of their numeric codes (1 to 6).
#[derive(Clone, Copy, Debug, PartialEq, Eq, Structural)]
pub enum Error {
    AlreadyInitialized,
    NotInitialized,
    RecordNotFound,
    InvalidExpiry,
    Unauthorized,
    InvalidJurisdiction,
}

impl MapKey for [u8; 2] {
    fn same(&self, other: &Self) -> (r: bool) {
        let r = self[0] == other[0] && self[1] == other[1];
        proof {
            if r {
                assert(*self =~= *other);
            }
        }
        r
    }
}

// ---- jurisdiction normalization ----

pub open spec fn is_ascii_whitespace(b: u8) -> bool {
    b == 32 || b == 9 || b == 10 || b == 12 || b == 13
}

pub open spec fn ascii_upper(b: u8) -> u8 {
    if 97 <= b <= 122 {
        (b - 32) as u8
    } else {
        b
    }
}

/// `s` without its leading ASCII whitespace.
pub open spec fn trim_start(s: Seq<u8>) -> Seq<u8>
    decreases s.len(),
{
    if s.len() > 0 && is_ascii_whitespace(s[0]) {
        trim_start(s.subrange(1, s.len() as int))
    } else {
        s
    }
}

/// `s` without its trailing ASCII whitespace.
pub open spec fn trim_end(s: Seq<u8>) -> Seq<u8>
    decreases s.len(),
{
    if s.len() > 0 && is_ascii_whitespace(s.last()) {
        trim_end(s.drop_last())
    } else {
        s
    }
}

/// The ASCII letters of `s` in upper case, other bytes unchanged.
pub open spec fn upper_all(s: Seq<u8>) -> Seq<u8> {
    s.map_values(|b: u8| ascii_upper(b))
}

/// A jurisdiction as given, with leading and trailing whitespace trimmed and
/// its ASCII letters uppercased. Whitespace inside is kept.
pub open spec fn normalized(s: Seq<u8>) -> Seq<u8> {
    upper_all(trim_end(trim_start(s)))
}

/// Exactly two ASCII letters (after normalization, two uppercase letters).
pub open spec fn is_country_code(n: Seq<u8>) -> bool {
    n.len() == 2 && 65 <= n[0] <= 90 && 65 <= n[1] <= 90
}

fn upper_byte(b: u8) -> (r: u8)
    ensures
        r == ascii_upper(b),
{
    if b >= 97 && b <= 122 {
        b - 32
    } else {
        b
    }
}

fn is_space(b: u8) -> (r: bool)
    ensures
        r == is_ascii_whitespace(b),
{
    b == 32 || b == 9 || b == 10 || b == 12 || b == 13
}

/// Trim leading and trailing whitespace and uppercase ASCII letters, so that
/// "us", " Us " and "US" all give "US" (while "U S" stays "U S").
pub fn normalize(raw: &Vec<u8>) -> (r: Vec<u8>)
    ensures
        r@ == normalized(raw@),
{
    let n = raw.len();
    let mut i: usize = 0;
    proof {
        assert(raw@.subrange(0, n as int) =~= raw@);
    }
    while i < n && is_space(raw[i])
        invariant
            n == raw@.len(),
            0 <= i <= n,
            trim_start(raw@) == trim_start(raw@.subrange(i as int, n as int)),
        decreases n - i,
    {
        proof {
            assert(raw@.subrange(i as int, n as int).subrange(1, n - i) =~= raw@.subrange(i + 1, n as int));
        }
        i = i + 1;
    }
    proof {
        assert(trim_start(raw@) == raw@.subrange(i as int, n as int));
    }
    let mut j: usize = n;
    while j > i && is_space(raw[j - 1])
        invariant
            n == raw@.len(),
            0 <= i <= j <= n,
            trim_start(raw@) == raw@.subrange(i as int, n as int),
            trim_end(raw@.subrange(i as int, n as int)) == trim_end(raw@.subrange(i as int, j as int)),
        decreases j - i,
    {
        proof {
            assert(raw@.subrange(i as int, j as int).drop_last() =~= raw@.subrange(i as int, j - 1));
        }
        j = j - 1;
    }
    proof {
        assert(trim_end(raw@.subrange(i as int, j as int)) == raw@.subrange(i as int, j as int));
    }
    let mut out: Vec<u8> = Vec::new();
    let mut k: usize = i;
    while k < j
        invariant
            n == raw@.len(),
            0 <= i <= k <= j <= n,
            out@ == upper_all(raw@.subrange(i as int, k as int)),
        decreases j - k,
    {
        out.push(upper_byte(raw[k]));
        k = k + 1;
        proof {
            assert(out@ =~= upper_all(raw@.subrange(i as int, k as int)));
        }
    }
    out
}

/// Normalize a jurisdiction and check that it is a two-letter code.
pub fn jurisdiction_code(raw: &Vec<u8>) -> (r: Result<[u8; 2], Error>)
    ensures
        match r {
            Ok(c) => is_country_code(normalized(raw@)) && c@ == normalized(raw@),
            Err(e) => e == Error::InvalidJurisdiction && !is_country_code(normalized(raw@)),
        },
{
    let n = normalize(raw);
    if n.len() == 2 && n[0] >= 65 && n[0] <= 90 && n[1] >= 65 && n[1] <= 90 {
        let c: [u8; 2] = [n[0], n[1]];
        proof {
            assert(c@ =~= n@);
        }
        Ok(c)
    } else {
        Err(Error::InvalidJurisdiction)
    }
}

/// Some code with view `n` is marked blocked.
pub open spec fn code_blocked(blocked: Map<[u8; 2], bool>, n: Seq<u8>) -> bool {
    exists|c: [u8; 2]| c@ == n && #[trigger] blocked.contains_key(c) && blocked[c]
}

/// An approval has lapsed once the ledger reaches its non-zero expiry.
pub open spec fn expired(rec: KycRecord, now: u32) -> bool {
    rec.expires_at != 0 && now >= rec.expires_at
}

pub open spec fn admin_error(admin: Option<Address>, caller: Address) -> Option<Error> {
    match admin {
        None => Some(Error::NotInitialized),
        Some(a) => if a == caller {
            None
        } else {
            Some(Error::Unauthorized)
        },
    }
}

fn list_contains(v: &Vec<Address>, a: &Address) -> (r: bool)
    ensures
        r == v@.contains(*a),
{
    let n = v.len();
    let mut i: usize = 0;
    while i < n
        invariant
            n == v@.len(),
            0 <= i <= n,
            forall|j: int| 0 <= j < i ==> v@[j] != *a,
        decreases n - i,
    {
        if v[i].equals(a) {
            return true;
        }
        i = i + 1;
    }
    false
}

/// The storage of a compliance contract: its admin, the list of addresses on
/// the allowlist, one KYC record per listed address, and the blocked
/// jurisdictions.
pub struct ComplianceContract {
    pub admin: Option<Address>,
    pub allowlist: Vec<Address>,
    pub records: KeyedMap<Address, KycRecord>,
    pub blocked: KeyedMap<[u8; 2], bool>,
}

impl ComplianceContract {
    /// The storage invariant: the allowlist lists, once each, exactly the
    /// addresses that have a record; each record names its own address and
    /// holds a canonical two-letter uppercase jurisdiction; and an
    /// uninitialized contract holds nothing.
    pub open spec fn wf(&self) -> bool {
        &&& self.records.wf()
        &&& self.blocked.wf()
        &&& self.allowlist@.no_duplicates()
        &&& forall|a: Address| #[trigger]
            self.allowlist@.contains(a) <==> self.records@.contains_key(a)
        &&& forall|a: Address| #[trigger]
            self.records@.contains_key(a) ==> self.records@[a].address == a
        &&& forall|a: Address| #[trigger]
            self.records@.contains_key(a) ==> is_country_code(self.records@[a].jurisdiction@)
        &&& self.admin.is_none() ==> self.records@.is_empty() && self.blocked@.is_empty()
    }

    /// The compliance check: `a` has a record that is Approved, not expired at `now`, and
    /// whose jurisdiction is not blocked.
    pub open spec fn allows(&self, a: Address, now: u32) -> bool {
        &&& self.records@.contains_key(a)
        &&& self.records@[a].status == ComplianceStatus::Approved
        &&& !expired(self.records@[a], now)
        &&& !(self.blocked@.contains_key(self.records@[a].jurisdiction)
            && self.blocked@[self.records@[a].jurisdiction])
    }

    /// The checks of `add_to_allowlist`, in order: the caller is the admin,
    /// the expiry is not already past, and the jurisdiction normalizes to a
    /// two-letter code.
    pub open spec fn add_error(&self, admin: Address, jurisdiction: Seq<u8>, expires_at: u32, now: u32) -> Option<
        Error,
    > {
        if admin_error(self.admin, admin).is_some() {
            admin_error(self.admin, admin)
        } else if expires_at != 0 && expires_at <= now {
            Some(Error::InvalidExpiry)
        } else if !is_country_code(normalized(jurisdiction)) {
            Some(Error::InvalidJurisdiction)
        } else {
            None
        }
    }

    /// The checks of `suspend` and `remove`, in order: the caller is the
    /// admin, and `address` has a record.
    pub open spec fn record_error(&self, admin: Address, address: Address) -> Option<Error> {
        if admin_error(self.admin, admin).is_some() {
            admin_error(self.admin, admin)
        } else if !self.records@.contains_key(address) {
            Some(Error::RecordNotFound)
        } else {
            None
        }
    }

    /// The checks of `block_jurisdiction` and `unblock_jurisdiction`, in
    /// order: the caller is the admin, and the jurisdiction normalizes to a
    /// two-letter code.
    pub open spec fn code_error(&self, admin: Address, jurisdiction: Seq<u8>) -> Option<Error> {
        if admin_error(self.admin, admin).is_some() {
            admin_error(self.admin, admin)
        } else if !is_country_code(normalized(jurisdiction)) {
            Some(Error::InvalidJurisdiction)
        } else {
            None
        }
    }

    /// Whether this storage meets the storage invariant; storage loaded from
    /// elsewhere is checked with this before use.
    pub fn is_well_formed(&self) -> (r: bool)
        ensures
            r == self.wf(),
    {
        if !self.records.is_well_formed() || !self.blocked.is_well_formed() {
            return false;
        }
        // No address is listed twice, and every listed address has a record.
        let n = self.allowlist.len();
        let mut j: usize = 0;
        while j < n
            invariant
                self.records.wf(),
                n == self.allowlist@.len(),
                0 <= j <= n,
                forall|a: int, b: int| 0 <= a < j && 0 <= b < j && a != b ==> self.allowlist@[a] != self.allowlist@[b],
                forall|a: int| 0 <= a < j ==> self.records@.contains_key(#[trigger] self.allowlist@[a]),
            decreases n - j,
        {
            let mut i: usize = 0;
            while i < j
                invariant
                    n == self.allowlist@.len(),
                    0 <= i <= j < n,
                    forall|a: int| 0 <= a < i ==> self.allowlist@[a] != self.allowlist@[j as int],
                decreases j - i,
            {
                if self.allowlist[i].equals(&self.allowlist[j]) {
                    return false;
                }
                i = i + 1;
            }
            if !self.records.contains(&self.allowlist[j]) {
                proof {
                    assert(self.allowlist@.contains(self.allowlist@[j as int]));
                }
                return false;
            }
            j = j + 1;
        }
        // Every record is listed and names its own address.
        let m = self.records.entries.len();
        let mut k: usize = 0;
        while k < m
            invariant
                self.records.wf(),
                m == self.records.entries@.len(),
                0 <= k <= m,
                forall|a: int| 0 <= a < k ==> self.allowlist@.contains(#[trigger] self.records.entries@[a].0),
                forall|a: int| 0 <= a < k ==> (#[trigger] self.records.entries@[a]).1.address == self.records.entries@[a].0,
                forall|a: int| 0 <= a < k ==> is_country_code((#[trigger] self.records.entries@[a]).1.jurisdiction@),
            decreases m - k,
        {
            let (key, rec) = self.records.entries[k];
            if !list_contains(&self.allowlist, &key) {
                proof {
                    lemma_map_of_index(self.records.entries@, k as int);
                }
                return false;
            }
            if !rec.address.equals(&key) {
                proof {
                    lemma_map_of_index(self.records.entries@, k as int);
                }
                return false;
            }
            let c = rec.jurisdiction;
            if !(c[0] >= 65 && c[0] <= 90 && c[1] >= 65 && c[1] <= 90) {
                proof {
                    lemma_map_of_index(self.records.entries@, k as int);
                }
                return false;
            }
            k = k + 1;
        }
        proof {
            assert forall|a: Address| #[trigger] self.allowlist@.contains(a) <==> self.records@.contains_key(a) by {
                lemma_map_of_contains(self.records.entries@, a);
                if self.allowlist@.contains(a) {
                    let i = choose|i: int| 0 <= i < self.allowlist@.len() && self.allowlist@[i] == a;
                    assert(self.records@.contains_key(self.allowlist@[i]));
                }
                if self.records@.contains_key(a) {
                    let i = choose|i: int| 0 <= i < self.records.entries@.len() && self.records.entries@[i].0 == a;
                    assert(self.allowlist@.contains(self.records.entries@[i].0));
                }
            }
            assert forall|a: Address| #[trigger] self.records@.contains_key(a) implies self.records@[a].address == a by {
                lemma_map_of_contains(self.records.entries@, a);
                let i = choose|i: int| 0 <= i < self.records.entries@.len() && self.records.entries@[i].0 == a;
                lemma_map_of_index(self.records.entries@, i);
                assert(self.records.entries@[i].1.address == self.records.entries@[i].0);
            }
            assert forall|a: Address| #[trigger] self.records@.contains_key(a) implies is_country_code(
                self.records@[a].jurisdiction@,
            ) by {
                lemma_map_of_contains(self.records.entries@, a);
                let i = choose|i: int| 0 <= i < self.records.entries@.len() && self.records.entries@[i].0 == a;
                lemma_map_of_index(self.records.entries@, i);
                assert(is_country_code(self.records.entries@[i].1.jurisdiction@));
            }
        }
        if self.admin.is_none() {
            let records_empty = self.records.is_empty();
            let blocked_empty = self.blocked.is_empty();
            return records_empty && blocked_empty;
        }
        true
    }

    /// Empty, uninitialized storage.
    pub fn new() -> (c: Self)
        ensures
            c.wf(),
            c.admin.is_none(),
            c.allowlist@.len() == 0,
            c.records@.is_empty(),
            c.blocked@.is_empty(),
    {
        let c = ComplianceContract {
            admin: None,
            allowlist: Vec::new(),
            records: KeyedMap::new(),
            blocked: KeyedMap::new(),
        };
        proof {
            assert(c.records@.is_empty());
            assert(c.blocked@.is_empty());
        }
        c
    }

    /// Current contract version.
    pub fn version(&self) -> (r: u32)
        ensures
            r == VERSION,
    {
        VERSION
    }

    fn require_admin(&self, admin: &Address) -> (r: Result<(), Error>)
        ensures
            match admin_error(self.admin, *admin) {
                None => r is Ok,
                Some(e) => r == Err::<(), Error>(e),
            },
    {
        match &self.admin {
            None => Err(Error::NotInitialized),
            Some(stored) => if stored.equals(admin) {
                Ok(())
            } else {
                Err(Error::Unauthorized)
            },
        }
    }

    /// Initialize the contract with an admin. Callable exactly once.
    pub fn initialize(&mut self, admin: Address) -> (r: Result<(), Error>)
        requires
            old(self).wf(),
        ensures
            final(self).wf(),
            old(self).admin.is_some() ==> r == Err::<(), Error>(Error::AlreadyInitialized) && *final(self)
                == *old(self),
            old(self).admin.is_none() ==> r is Ok && final(self).admin == Some(admin)
                && final(self).allowlist@.len() == 0 && final(self).records@ == old(self).records@
                && final(self).blocked@ == old(self).blocked@,
    {
        if self.admin.is_some() {
            return Err(Error::AlreadyInitialized);
        }
        self.admin = Some(admin);
        self.allowlist = Vec::new();
        Ok(())
    }

    /// Add (or re-approve) an address on the allowlist, in the given
    /// jurisdiction and with the given expiry. Returns the record it replaced.
    pub fn add_to_allowlist(
        &mut self,
        admin: Address,
        address: Address,
        jurisdiction: &Vec<u8>,
        expires_at: u32,
        now: u32,
    ) -> (r: Result<Option<KycRecord>, Error>)
        requires
            old(self).wf(),
        ensures
            final(self).wf(),
            match old(self).add_error(admin, jurisdiction@, expires_at, now) {
                Some(e) => r == Err::<Option<KycRecord>, Error>(e) && *final(self) == *old(self),
                None => {
                    &&& r == Ok::<Option<KycRecord>, Error>(
                        if old(self).records@.contains_key(address) {
                            Some(old(self).records@[address])
                        } else {
                            None
                        },
                    )
                    &&& final(self).records@.contains_key(address)
                    &&& final(self).records@ == old(self).records@.insert(address, final(self).records@[address])
                    &&& final(self).records@[address].address == address
                    &&& final(self).records@[address].status == ComplianceStatus::Approved
                    &&& final(self).records@[address].jurisdiction@ == normalized(jurisdiction@)
                    &&& final(self).records@[address].verified_at == now
                    &&& final(self).records@[address].expires_at == expires_at
                    &&& final(self).allowlist@ == (if old(self).allowlist@.contains(address) {
                        old(self).allowlist@
                    } else {
                        old(self).allowlist@.push(address)
                    })
                    &&& final(self).admin == old(self).admin
                    &&& final(self).blocked@ == old(self).blocked@
                },
            },
    {
        self.require_admin(&admin)?;
        if expires_at != 0 && expires_at <= now {
            return Err(Error::InvalidExpiry);
        }
        let code = jurisdiction_code(jurisdiction)?;
        let prev = self.records.get(&address);
        let record = KycRecord {
            address,
            status: ComplianceStatus::Approved,
            jurisdiction: code,
            verified_at: now,
            expires_at,
        };
        self.records.insert(address, record);
        if !list_contains(&self.allowlist, &address) {
            proof {
                assert forall|i: int, j: int|
                    0 <= i < self.allowlist@.push(address).len() && 0 <= j
                        < self.allowlist@.push(address).len() && i != j implies self.allowlist@.push(
                    address,
                )[i] != self.allowlist@.push(address)[j] by {
                    let s = self.allowlist@.push(address);
                    if i < self.allowlist@.len() && j < self.allowlist@.len() {
                    } else if i < self.allowlist@.len() {
                        assert(self.allowlist@.contains(s[i]));
                    } else {
                        assert(self.allowlist@.contains(s[j]));
                    }
                }
            }
            self.allowlist.push(address);
            proof {
                assert forall|a: Address| #[trigger] self.allowlist@.contains(a) implies old(self).allowlist@.contains(a) || a == address by {
                    let j = choose|j: int| 0 <= j < self.allowlist@.len() && self.allowlist@[j] == a;
                    if j < old(self).allowlist@.len() {
                        assert(old(self).allowlist@[j] == a);
                    }
                }
                assert forall|a: Address| #[trigger] old(self).allowlist@.contains(a) implies self.allowlist@.contains(a) by {
                    let j = choose|j: int| 0 <= j < old(self).allowlist@.len() && old(self).allowlist@[j] == a;
                    assert(self.allowlist@[j] == a);
                }
                assert(self.allowlist@[old(self).allowlist@.len() as int] == address);
            }
        }
        proof {
            assert(self.allowlist@.contains(address));
            assert forall|a: Address| #[trigger] self.allowlist@.contains(a) <==> self.records@.contains_key(a) by {
                if a != address {
                    assert(old(self).allowlist@.contains(a) <==> old(self).records@.contains_key(a));
                }
            }
            assert forall|a: Address| #[trigger] self.records@.contains_key(a) implies self.records@[a].address == a by {
                if a != address {
                    assert(old(self).records@.contains_key(a));
                }
            }
        }
        Ok(prev)
    }

    /// Suspend an address. Its record is kept but the compliance check refuses it until it
    /// is re-approved.
    pub fn suspend(&mut self, admin: Address, address: Address) -> (r: Result<(), Error>)
        requires
            old(self).wf(),
        ensures
            final(self).wf(),
            match old(self).record_error(admin, address) {
                Some(e) => r == Err::<(), Error>(e) && *final(self) == *old(self),
                None => {
                    &&& r is Ok
                    &&& final(self).records@ == old(self).records@.insert(
                        address,
                        KycRecord { status: ComplianceStatus::Suspended, ..old(self).records@[address] },
                    )
                    &&& final(self).allowlist@ == old(self).allowlist@
                    &&& final(self).admin == old(self).admin
                    &&& final(self).blocked@ == old(self).blocked@
                },
            },
    {
        self.require_admin(&admin)?;
        match self.records.get(&address) {
            None => Err(Error::RecordNotFound),
            Some(record) => {
                let updated = KycRecord { status: ComplianceStatus::Suspended, ..record };
                self.records.insert(address, updated);
                Ok(())
            },
        }
    }

    /// Delete an address's record and take it off the allowlist.
    pub fn remove(&mut self, admin: Address, address: Address) -> (r: Result<(), Error>)
        requires
            old(self).wf(),
        ensures
            final(self).wf(),
            match old(self).record_error(admin, address) {
                Some(e) => r == Err::<(), Error>(e) && *final(self) == *old(self),
                None => {
                    &&& r is Ok
                    &&& final(self).records@ == old(self).records@.remove(address)
                    &&& final(self).allowlist@ == old(self).allowlist@.filter(|a: Address| a != address)
                    &&& final(self).admin == old(self).admin
                    &&& final(self).blocked@ == old(self).blocked@
                },
            },
    {
        self.require_admin(&admin)?;
        if !self.records.contains(&address) {
            return Err(Error::RecordNotFound);
        }
        self.records.remove(&address);
        let ghost keep = |a: Address| a != address;
        let n = self.allowlist.len();
        let mut next: Vec<Address> = Vec::new();
        let mut i: usize = 0;
        while i < n
            invariant
                n == self.allowlist@.len(),
                0 <= i <= n,
                next@ == self.allowlist@.take(i as int).filter(keep),
                keep == (|a: Address| a != address),
            decreases n - i,
        {
            proof {
                lemma_filter_take_step(self.allowlist@, keep, i as int);
            }
            let a = self.allowlist[i];
            if !a.equals(&address) {
                next.push(a);
            }
            i = i + 1;
        }
        proof {
            assert(self.allowlist@.take(n as int) =~= self.allowlist@);
            lemma_filter_no_duplicates(self.allowlist@, keep);
            assert forall|a: Address| #[trigger] next@.contains(a) <==> self.records@.contains_key(a) by {
                lemma_filter_membership(self.allowlist@, keep, a);
            }
        }
        self.allowlist = next;
        Ok(())
    }

    /// The compliance check used by the asset token: whether `address` is Approved, not
    /// expired at `now`, and not in a blocked jurisdiction. Never fails.
    pub fn is_allowed(&self, address: Address, now: u32) -> (r: bool)
        requires
            self.wf(),
        ensures
            r == self.allows(address, now),
    {
        match self.records.get(&address) {
            None => false,
            Some(record) => {
                if record.status != ComplianceStatus::Approved {
                    return false;
                }
                if record.expires_at != 0 && now >= record.expires_at {
                    return false;
                }
                match self.blocked.get(&record.jurisdiction) {
                    Some(b) => !b,
                    None => true,
                }
            },
        }
    }

    /// The record of `address`, if it has one.
    pub fn get_record(&self, address: Address) -> (r: Option<KycRecord>)
        requires
            self.wf(),
        ensures
            r == (if self.records@.contains_key(address) {
                Some(self.records@[address])
            } else {
                None
            }),
    {
        self.records.get(&address)
    }

    /// Every address on the allowlist, whatever its current status.
    pub fn get_allowlist(&self) -> (r: Vec<Address>)
        ensures
            r@ == self.allowlist@,
    {
        let n = self.allowlist.len();
        let mut out: Vec<Address> = Vec::new();
        let mut i: usize = 0;
        while i < n
            invariant
                n == self.allowlist@.len(),
                0 <= i <= n,
                out@ == self.allowlist@.take(i as int),
            decreases n - i,
        {
            out.push(self.allowlist[i]);
            i = i + 1;
            proof {
                assert(out@ =~= self.allowlist@.take(i as int));
            }
        }
        proof {
            assert(self.allowlist@.take(n as int) =~= self.allowlist@);
        }
        out
    }

    /// The allowlisted addresses that the compliance check currently lets through, in
    /// allowlist order.
    pub fn get_allowed(&self, now: u32) -> (r: Vec<Address>)
        requires
            self.wf(),
        ensures
            r@ == self.allowlist@.filter(|a: Address| self.allows(a, now)),
    {
        let ghost keep = |a: Address| self.allows(a, now);
        let n = self.allowlist.len();
        let mut out: Vec<Address> = Vec::new();
        let mut i: usize = 0;
        while i < n
            invariant
                self.wf(),
                n == self.allowlist@.len(),
                0 <= i <= n,
                out@ == self.allowlist@.take(i as int).filter(keep),
                keep == (|a: Address| self.allows(a, now)),
            decreases n - i,
        {
            proof {
                lemma_filter_take_step(self.allowlist@, keep, i as int);
            }
            let a = self.allowlist[i];
            if self.is_allowed(a, now) {
                out.push(a);
            }
            i = i + 1;
        }
        proof {
            assert(self.allowlist@.take(n as int) =~= self.allowlist@);
        }
        out
    }

    /// Block an entire jurisdiction. Returns the normalized code.
    pub fn block_jurisdiction(&mut self, admin: Address, jurisdiction: &Vec<u8>) -> (r: Result<[u8; 2], Error>)
        requires
            old(self).wf(),
        ensures
            final(self).wf(),
            match old(self).code_error(admin, jurisdiction@) {
                Some(e) => r == Err::<[u8; 2], Error>(e) && *final(self) == *old(self),
                None => match r {
                    Err(_) => false,
                    Ok(code) => {
                        &&& code@ == normalized(jurisdiction@)
                        &&& is_country_code(code@)
                        &&& final(self).blocked@ == old(self).blocked@.insert(code, true)
                        &&& final(self).records@ == old(self).records@
                        &&& final(self).allowlist@ == old(self).allowlist@
                        &&& final(self).admin == old(self).admin
                    },
                },
            },
    {
        self.require_admin(&admin)?;
        let code = jurisdiction_code(jurisdiction)?;
        self.blocked.insert(code, true);
        Ok(code)
    }

    /// Lift the block on a jurisdiction. Returns the normalized code.
    pub fn unblock_jurisdiction(&mut self, admin: Address, jurisdiction: &Vec<u8>) -> (r: Result<[u8; 2], Error>)
        requires
            old(self).wf(),
        ensures
            final(self).wf(),
            match old(self).code_error(admin, jurisdiction@) {
                Some(e) => r == Err::<[u8; 2], Error>(e) && *final(self) == *old(self),
                None => match r {
                    Err(_) => false,
                    Ok(code) => {
                        &&& code@ == normalized(jurisdiction@)
                        &&& is_country_code(code@)
                        &&& final(self).blocked@ == old(self).blocked@.remove(code)
                        &&& final(self).records@ == old(self).records@
                        &&& final(self).allowlist@ == old(self).allowlist@
                        &&& final(self).admin == old(self).admin
                    },
                },
            },
    {
        self.require_admin(&admin)?;
        let code = jurisdiction_code(jurisdiction)?;
        self.blocked.remove(&code);
        proof {
            assert(old(self).admin.is_some());
        }
        Ok(code)
    }

    /// Whether a jurisdiction (normalized first) is currently blocked.
    pub fn is_jurisdiction_blocked(&self, jurisdiction: &Vec<u8>) -> (r: bool)
        requires
            self.wf(),
        ensures
            r == code_blocked(self.blocked@, normalized(jurisdiction@)),
    {
        let n = normalize(jurisdiction);
        if n.len() != 2 {
            proof {
                assert forall|c: [u8; 2]| c@ != n@ by {
                    assert(c@.len() == 2);
                }
            }
            return false;
        }
        let c: [u8; 2] = [n[0], n[1]];
        proof {
            assert(c@ =~= n@);
            assert forall|d: [u8; 2]| d@ == n@ implies d == c by {
                assert(d =~= c);
            }
        }
        match self.blocked.get(&c) {
            Some(b) => b,
            None => false,
        }
    }

    /// Drop every record that has expired at `now`, with its allowlist entry.
    /// Returns the pruned addresses, in allowlist order.
    pub fn prune_expired(&mut self, admin: Address, now: u32) -> (r: Result<Vec<Address>, Error>)
        requires
            old(self).wf(),
        ensures
            final(self).wf(),
            match r {
                Err(e) => *final(self) == *old(self) && admin_error(old(self).admin, admin) == Some(e),
                Ok(pruned) => {
                    &&& admin_error(old(self).admin, admin).is_none()
                    &&& pruned@ == old(self).allowlist@.filter(
                        |a: Address| old(self).records@.contains_key(a) && expired(old(self).records@[a], now),
                    )
                    &&& final(self).allowlist@ == old(self).allowlist@.filter(
                        |a: Address| old(self).records@.contains_key(a) && !expired(old(self).records@[a], now),
                    )
                    &&& final(self).records@ == old(self).records@.remove_keys(
                        Set::new(|a: Address| old(self).records@.contains_key(a) && expired(old(self).records@[a], now)),
                    )
                    &&& final(self).admin == old(self).admin
                    &&& final(self).blocked@ == old(self).blocked@
                },
            },
    {
        self.require_admin(&admin)?;
        let ghost old_records = self.records@;
        let ghost list = self.allowlist@;
        let ghost gone = |a: Address| old_records.contains_key(a) && expired(old_records[a], now);
        let ghost stay = |a: Address| old_records.contains_key(a) && !expired(old_records[a], now);
        let n = self.allowlist.len();
        let mut next: Vec<Address> = Vec::new();
        let mut pruned: Vec<Address> = Vec::new();
        let mut i: usize = 0;
        while i < n
            invariant
                n == list.len(),
                list == self.allowlist@,
                list.no_duplicates(),
                self.admin == old(self).admin,
                self.admin.is_some(),
                self.blocked == old(self).blocked,
                self.blocked.wf(),
                old_records == old(self).records@,
                list == old(self).allowlist@,
                forall|b: Address| #[trigger] list.contains(b) <==> old_records.contains_key(b),
                forall|b: Address| #[trigger] old_records.contains_key(b) ==> old_records[b].address == b,
                0 <= i <= n,
                self.records.wf(),
                gone == (|a: Address| old_records.contains_key(a) && expired(old_records[a], now)),
                stay == (|a: Address| old_records.contains_key(a) && !expired(old_records[a], now)),
                next@ == list.take(i as int).filter(stay),
                pruned@ == list.take(i as int).filter(gone),
                self.records@ == old_records.remove_keys(
                    Set::new(|a: Address| list.take(i as int).contains(a) && gone(a)),
                ),
            decreases n - i,
        {
            proof {
                lemma_filter_take_step(list, stay, i as int);
                lemma_filter_take_step(list, gone, i as int);
            }
            let a = self.allowlist[i];
            proof {
                assert(!list.take(i as int).contains(a)) by {
                    if list.take(i as int).contains(a) {
                        let j = choose|j: int| 0 <= j < i && list.take(i as int)[j] == a;
                        assert(list[j] == list[i as int]);
                    }
                }
                assert(self.records@.contains_key(a) == old_records.contains_key(a));
            }
            match self.records.get(&a) {
                Some(rec) => {
                    proof {
                        assert(rec == old_records[a]);
                    }
                    if rec.expires_at != 0 && now >= rec.expires_at {
                        self.records.remove(&a);
                        pruned.push(a);
                    } else {
                        next.push(a);
                    }
                },
                None => {},
            }
            proof {
                let before = Set::new(|b: Address| list.take(i as int).contains(b) && gone(b));
                let after = Set::new(|b: Address| list.take(i + 1).contains(b) && gone(b));
                let t0 = list.take(i as int);
                let t1 = list.take(i + 1);
                assert forall|b: Address| t1.contains(b) <==> (t0.contains(b) || b == a) by {
                    if t1.contains(b) {
                        let j = choose|j: int| 0 <= j < t1.len() && t1[j] == b;
                        if j < i {
                            assert(t0[j] == b);
                        }
                    }
                    if t0.contains(b) {
                        let j = choose|j: int| 0 <= j < t0.len() && t0[j] == b;
                        assert(t1[j] == b);
                    }
                    if b == a {
                        assert(t1[i as int] == b);
                    }
                }
                if gone(a) {
                    assert(after =~= before.insert(a));
                    assert(self.records@ =~= old_records.remove_keys(after));
                } else {
                    assert(after =~= before);
                }
            }
            i = i + 1;
        }
        proof {
            assert(list.take(n as int) =~= list);
            lemma_filter_no_duplicates(list, stay);
            assert forall|a: Address| #[trigger] next@.contains(a) <==> self.records@.contains_key(a) by {
                lemma_filter_membership(list, stay, a);
                assert(list.contains(a) <==> old_records.contains_key(a));
            }
            assert(Set::new(|b: Address| list.contains(b) && gone(b)) =~= Set::new(
                |b: Address| old_records.contains_key(b) && expired(old_records[b], now),
            )) by {
                assert forall|b: Address| old_records.contains_key(b) implies #[trigger] list.contains(b) by {}
            }
            assert forall|a: Address| #[trigger] self.records@.contains_key(a) implies self.records@[a].address == a by {
                assert(old_records.contains_key(a));
            }
        }
        self.allowlist = next;
        Ok(pruned)
    }

    /// The configured admin.
    pub fn get_admin(&self) -> (r: Result<Address, Error>)
        ensures
            match self.admin {
                Some(a) => r == Ok::<Address, Error>(a),
                None => r == Err::<Address, Error>(Error::NotInitialized),
            },
    {
        match self.admin {
            Some(a) => Ok(a),
            None => Err(Error::NotInitialized),
        }
    }
}

pub open spec fn ascii_lower(b: u8) -> u8 {
    if 65 <= b <= 90 {
        (b + 32) as u8
    } else {
        b
    }
}

/// Changing the case of ASCII letters turns no byte into whitespace or out
/// of it, and uppercasing after either case change gives the same byte.
proof fn lemma_case_bytes(b: u8)
    ensures
        is_ascii_whitespace(ascii_upper(b)) == is_ascii_whitespace(b),
        is_ascii_whitespace(ascii_lower(b)) == is_ascii_whitespace(b),
        ascii_upper(ascii_upper(b)) == ascii_upper(b),
        ascii_upper(ascii_lower(b)) == ascii_upper(b),
{
}

/// Trimming commutes with a byte map that keeps whitespace and non-whitespace
/// apart.
proof fn lemma_trim_map(s: Seq<u8>, f: spec_fn(u8) -> u8)
    requires
        forall|b: u8| is_ascii_whitespace(#[trigger] f(b)) == is_ascii_whitespace(b),
    ensures
        trim_start(s.map_values(f)) == trim_start(s).map_values(f),
        trim_end(s.map_values(f)) == trim_end(s).map_values(f),
    decreases s.len(),
{
    let m = s.map_values(f);
    if s.len() > 0 {
        assert(m[0] == f(s[0]));
        assert(m.last() == f(s.last()));
        let rest = s.subrange(1, s.len() as int);
        assert(m.subrange(1, m.len() as int) =~= rest.map_values(f));
        assert(m.drop_last() =~= s.drop_last().map_values(f));
        lemma_trim_map(rest, f);
        lemma_trim_map(s.drop_last(), f);
    } else {
        assert(m =~= s.map_values(f));
    }
}

/// What `trim_start` leaves is empty or starts with a non-whitespace byte.
proof fn lemma_trim_start_shape(s: Seq<u8>)
    ensures
        trim_start(s).len() == 0 || !is_ascii_whitespace(trim_start(s)[0]),
    decreases s.len(),
{
    if s.len() > 0 && is_ascii_whitespace(s[0]) {
        lemma_trim_start_shape(s.subrange(1, s.len() as int));
    }
}

/// What `trim_end` leaves is a prefix of `s` that is empty or ends with a
/// non-whitespace byte.
proof fn lemma_trim_end_shape(s: Seq<u8>)
    ensures
        trim_end(s).len() <= s.len(),
        forall|i: int| 0 <= i < trim_end(s).len() ==> #[trigger] trim_end(s)[i] == s[i],
        trim_end(s).len() == 0 || !is_ascii_whitespace(trim_end(s).last()),
    decreases s.len(),
{
    if s.len() > 0 && is_ascii_whitespace(s.last()) {
        lemma_trim_end_shape(s.drop_last());
        assert forall|i: int| 0 <= i < trim_end(s).len() implies #[trigger] trim_end(s)[i] == s[i] by {
            assert(trim_end(s)[i] == s.drop_last()[i]);
        }
    }
}

/// Trimming a trimmed jurisdiction changes nothing.
proof fn lemma_trimmed_fixed(s: Seq<u8>)
    ensures
        trim_end(trim_start(trim_end(trim_start(s)))) == trim_end(trim_start(s)),
{
    let u = trim_start(s);
    let v = trim_end(u);
    lemma_trim_start_shape(s);
    lemma_trim_end_shape(u);
    if v.len() > 0 {
        assert(v[0] == u[0]);
    }
    assert(trim_start(v) == v);
    assert(trim_end(v) == v);
}

/// Normalizing a normalized jurisdiction changes nothing.
pub proof fn law_normalize_is_idempotent(s: Seq<u8>)
    ensures
        normalized(normalized(s)) == normalized(s),
{
    let t = trim_end(trim_start(s));
    let f = |b: u8| ascii_upper(b);
    assert forall|b: u8| is_ascii_whitespace(#[trigger] f(b)) == is_ascii_whitespace(b) by {
        lemma_case_bytes(b);
    }
    lemma_trim_map(t, f);
    lemma_trim_map(trim_start(t), f);
    lemma_trimmed_fixed(s);
    assert forall|i: int| 0 <= i < t.len() implies #[trigger] upper_all(upper_all(t))[i] == upper_all(t)[i] by {
        lemma_case_bytes(t[i]);
    }
    assert(upper_all(upper_all(t)) =~= upper_all(t));
}

/// Jurisdictions are case-insensitive: writing the letters of a jurisdiction
/// in lower case does not change what it normalizes to.
pub proof fn law_normalize_ignores_case(s: Seq<u8>)
    ensures
        normalized(s.map_values(|b: u8| ascii_lower(b))) == normalized(s),
{
    let f = |b: u8| ascii_lower(b);
    assert forall|b: u8| is_ascii_whitespace(#[trigger] f(b)) == is_ascii_whitespace(b) by {
        lemma_case_bytes(b);
    }
    lemma_trim_map(s, f);
    lemma_trim_map(trim_start(s), f);
    let t = trim_end(trim_start(s));
    assert forall|i: int| 0 <= i < t.len() implies #[trigger] upper_all(t.map_values(f))[i] == upper_all(t)[i] by {
        lemma_case_bytes(t[i]);
    }
    assert(upper_all(t.map_values(f)) =~= upper_all(t));
}

/// Blocking a jurisdiction that was not blocked and then unblocking it leaves
/// the blocked jurisdictions as they were.
pub proof fn law_unblock_undoes_block(blocked: Map<[u8; 2], bool>, code: [u8; 2])
    requires
        !blocked.contains_key(code),
    ensures
        blocked.insert(code, true).remove(code) == blocked,
{
    assert(blocked.insert(code, true).remove(code) =~= blocked);
}

/// The compliance check refuses an address whose record is not Approved (suspended,
/// pending or rejected), whose approval has expired, or whose jurisdiction is
/// blocked; and it refuses an address without a record.
pub proof fn law_check_refuses(c: &ComplianceContract, a: Address, now: u32)
    requires
        !c.records@.contains_key(a) || c.records@[a].status != ComplianceStatus::Approved || expired(
            c.records@[a],
            now,
        ) || (c.blocked@.contains_key(c.records@[a].jurisdiction)
            && c.blocked@[c.records@[a].jurisdiction]),
    ensures
        !c.allows(a, now),
{
}

/// A record written by `add_to_allowlist` for a jurisdiction that is not
/// blocked lets its address through until it expires.
pub proof fn law_fresh_approval_passes(c: &ComplianceContract, a: Address, now: u32)
    requires
        c.records@.contains_key(a),
        c.records@[a].status == ComplianceStatus::Approved,
        !expired(c.records@[a], now),
        !c.blocked@.contains_key(c.records@[a].jurisdiction),
    ensures
        c.allows(a, now),
{
}

} // verus!
