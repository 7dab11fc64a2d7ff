use vstd::prelude::*;

use crate::keymap::{copy_bytes, KeyMap};

verus! {

/// Lifecycle of a package.
#[derive(Clone, Copy, PartialEq, Eq, Debug, Structural)]
pub enum PackageStatus {
    Created,
    Claimed,
    Expired,
    Cancelled,
    Refunded,
}

/// Everything an entrypoint can refuse with.
#[derive(Clone, Copy, PartialEq, Eq, Debug, Structural)]
pub enum Error {
    NotInitialized,
    AlreadyInitialized,
    NotAuthorized,
    InvalidAmount,
    PackageNotFound,
    PackageNotActive,
    PackageExpired,
    PackageNotExpired,
    InsufficientFunds,
    PackageIdExists,
    InvalidState,
    /// `recipients`, `amounts` and `metadatas` have different lengths.
    MismatchedArrays,
    InsufficientSurplus,
    ContractPaused,
    ClaimTooEarly,
    InvalidProof,
    InvalidToken,
    TokenTransferFailed,
}

/// Sums of package amounts of one token, by status group.
#[derive(Clone, Copy, PartialEq, Eq, Debug, Structural)]
pub struct Aggregates {
    pub total_committed: i128,
    pub total_claimed: i128,
    pub total_expired_cancelled: i128,
}

/// Free-form text attached to a package, keyed by name; names and values are bytes.
pub struct Metadata {
    entries: KeyMap<Vec<u8>>,
}

impl Metadata {
    pub closed spec fn wf(&self) -> bool {
        self.entries.wf()
    }

    pub closed spec fn view(&self) -> Map<Seq<u8>, Seq<u8>> {
        self.entries.view().map_values(|v: Vec<u8>| v@)
    }

    /// The names, in the order `entry` walks them.
    pub closed spec fn names(&self) -> Seq<Seq<u8>> {
        self.entries.key_seq()
    }

    /// Walking `entry` over `0..len` visits every name once.
    pub proof fn lemma_names(&self)
        requires
            self.wf(),
        ensures
            self.names().to_set() == self.view().dom(),
            self.names().len() == self.view().len(),
            self.names().no_duplicates(),
    {
        self.entries.lemma_dom();
        self.entries.lemma_unique();
        assert(self.view().dom() =~= self.entries.view().dom());
        self.entries.lemma_len_matches();
    }

    pub fn new() -> (m: Self)
        ensures
            m.wf(),
            m.view() == Map::<Seq<u8>, Seq<u8>>::empty(),
    {
        let m = Metadata { entries: KeyMap::new() };
        assert(m.view() =~= Map::<Seq<u8>, Seq<u8>>::empty());
        m
    }

    /// Sets `key` to `value`, replacing any earlier value.
    pub fn set(&mut self, key: Vec<u8>, value: Vec<u8>)
        requires
            old(self).wf(),
        ensures
            final(self).wf(),
            final(self).view() == old(self).view().insert(key@, value@),
    {
        let ghost k = key@;
        let ghost v = value@;
        self.entries.set(key, value);
        assert(self.view() =~= old(self).view().insert(k, v));
    }

    pub fn get(&self, key: &[u8]) -> (r: Option<&Vec<u8>>)
        requires
            self.wf(),
        ensures
            match r {
                Some(v) => self.view().contains_key(key@) && v@ == self.view()[key@],
                None => !self.view().contains_key(key@),
            },
    {
        self.entries.get(key)
    }

    pub fn len(&self) -> (n: usize)
        requires
            self.wf(),
        ensures
            n == self.view().len(),
    {
        let n = self.entries.len();
        assert(self.view().dom() =~= self.entries.view().dom());
        n
    }

    /// The name and value at position `i`, for walking all entries.
    pub fn entry(&self, i: usize) -> (r: (&Vec<u8>, &Vec<u8>))
        requires
            self.wf(),
            i < self.view().len(),
        ensures
            r.0@ == self.names()[i as int],
            self.view().contains_key(r.0@),
            self.view()[r.0@] == r.1@,
    {
        assert(self.view().dom() =~= self.entries.view().dom());
        self.entries.len();
        self.entries.entry(i)
    }

    /// A copy with the same entries.
    pub fn copy(&self) -> (r: Self)
        requires
            self.wf(),
        ensures
            r.wf(),
            r.view() == self.view(),
    {
        let mut r = Metadata::new();
        let n = self.entries.len();
        let mut i: usize = 0;
        while i < n
            invariant
                self.wf(),
                r.wf(),
                n == self.entries.key_seq().len(),
                i <= n,
                r.view() == self.view().restrict(self.entries.key_seq().subrange(0, i as int).to_set()),
            decreases n - i,
        {
            let (k, v) = self.entries.entry(i);
            let ghost before = self.entries.key_seq().subrange(0, i as int);
            let ghost after = self.entries.key_seq().subrange(0, i + 1);
            assert(after.to_set() =~= before.to_set().insert(k@)) by {
                assert(after =~= before.push(k@));
                before.lemma_push_to_set_commute(k@);
            }
            r.set(copy_bytes(k), copy_bytes(v));
            assert(r.view() =~= self.view().restrict(after.to_set()));
            i += 1;
        }
        proof {
            assert(self.entries.key_seq().subrange(0, n as int) =~= self.entries.key_seq());
            assert forall|k: Seq<u8>| self.view().contains_key(k) implies
                self.entries.key_seq().to_set().contains(k) by {
                self.entries.lemma_dom();
            }
            assert(r.view() =~= self.view());
        }
        r
    }
}

/// Global settings: smallest package amount, longest allowed expiry horizon
/// (`0` for none) and the tokens packages may use (empty for any).
pub struct Config {
    pub min_amount: i128,
    pub max_expires_in: u64,
    pub allowed_tokens: Vec<Vec<u8>>,
}

pub struct ConfigView {
    pub min_amount: i128,
    pub max_expires_in: u64,
    pub allowed_tokens: Seq<Seq<u8>>,
}

impl View for Config {
    type V = ConfigView;

    open spec fn view(&self) -> ConfigView {
        ConfigView {
            min_amount: self.min_amount,
            max_expires_in: self.max_expires_in,
            allowed_tokens: self.allowed_tokens@.map_values(|t: Vec<u8>| t@),
        }
    }
}

/// The configuration in force until one is set.
pub open spec fn default_config() -> ConfigView {
    ConfigView { min_amount: 1, max_expires_in: 0, allowed_tokens: Seq::empty() }
}

/// Copies a list of byte strings.
pub fn copy_byte_list(v: &Vec<Vec<u8>>) -> (r: Vec<Vec<u8>>)
    ensures
        r@.map_values(|t: Vec<u8>| t@) == v@.map_values(|t: Vec<u8>| t@),
{
    let mut r: Vec<Vec<u8>> = Vec::new();
    let mut i: usize = 0;
    while i < v.len()
        invariant
            i <= v@.len(),
            r@.map_values(|t: Vec<u8>| t@) == v@.subrange(0, i as int).map_values(|t: Vec<u8>| t@),
        decreases v@.len() - i,
    {
        r.push(copy_bytes(&v[i]));
        assert(v@.subrange(0, i + 1).map_values(|t: Vec<u8>| t@) =~= v@.subrange(0, i as int).map_values(|t: Vec<u8>| t@).push(v@[i as int]@));
        assert(r@.map_values(|t: Vec<u8>| t@) =~= v@.subrange(0, i + 1).map_values(|t: Vec<u8>| t@));
        i += 1;
    }
    assert(v@.subrange(0, v@.len() as int) =~= v@);
    r
}

impl Config {
    pub fn default_config() -> (c: Config)
        ensures
            c@ == default_config(),
    {
        let c = Config { min_amount: 1, max_expires_in: 0, allowed_tokens: Vec::new() };
        assert(c@.allowed_tokens =~= Seq::<Seq<u8>>::empty());
        c
    }

    pub fn copy(&self) -> (c: Config)
        ensures
            c@ == self@,
    {
        Config {
            min_amount: self.min_amount,
            max_expires_in: self.max_expires_in,
            allowed_tokens: copy_byte_list(&self.allowed_tokens),
        }
    }
}

/// A package: `amount` of `token` held for `recipient`, claimable from
/// `claim_starts_at` until `expires_at` (`0` for never).
pub struct Package {
    pub id: u64,
    pub recipient: Vec<u8>,
    pub amount: i128,
    pub token: Vec<u8>,
    pub status: PackageStatus,
    pub created_at: u64,
    pub expires_at: u64,
    pub claim_starts_at: u64,
    pub metadata: Metadata,
}

pub struct PackageView {
    pub id: u64,
    pub recipient: Seq<u8>,
    pub amount: i128,
    pub token: Seq<u8>,
    pub status: PackageStatus,
    pub created_at: u64,
    pub expires_at: u64,
    pub claim_starts_at: u64,
    pub metadata: Map<Seq<u8>, Seq<u8>>,
}

impl View for Package {
    type V = PackageView;

    open spec fn view(&self) -> PackageView {
        PackageView {
            id: self.id,
            recipient: self.recipient@,
            amount: self.amount,
            token: self.token@,
            status: self.status,
            created_at: self.created_at,
            expires_at: self.expires_at,
            claim_starts_at: self.claim_starts_at,
            metadata: self.metadata.view(),
        }
    }
}

impl Package {
    pub fn copy(&self) -> (p: Package)
        requires
            self.metadata.wf(),
        ensures
            p@ == self@,
            p.metadata.wf(),
    {
        Package {
            id: self.id,
            recipient: copy_bytes(&self.recipient),
            amount: self.amount,
            token: copy_bytes(&self.token),
            status: self.status,
            created_at: self.created_at,
            expires_at: self.expires_at,
            claim_starts_at: self.claim_starts_at,
            metadata: self.metadata.copy(),
        }
    }
}

/// A token transfer out of the escrow that an entrypoint asks for before it
/// commits: `amount` of `token` to `to`.
pub struct Payout {
    pub token: Vec<u8>,
    pub to: Vec<u8>,
    pub amount: i128,
}

/// A token transfer into the escrow that an entrypoint asks for before it
/// commits: `amount` of `token` from `from`.
pub struct Deposit {
    pub token: Vec<u8>,
    pub from: Vec<u8>,
    pub amount: i128,
}

} // verus!
