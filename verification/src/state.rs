use std::collections::HashMap;

use vstd::prelude::*;

use crate::keymap::KeyMap;
use crate::types::{Config, ConfigView, Package, PackageStatus, PackageView};

verus! {

broadcast use vstd::std_specs::hash::group_hash_axioms;

/// The escrow's whole state: who administers it, its settings, pause switches,
/// per-token bookkeeping and the packages, with the order in which they were made.
pub struct AidEscrow {
    pub admin: Option<Vec<u8>>,
    pub version: u32,
    pub config: Config,
    pub paused: bool,
    pub create_paused: bool,
    pub claim_paused: bool,
    pub withdraw_paused: bool,
    /// Addresses that may create packages besides the admin.
    pub distributors: KeyMap<bool>,
    /// Per token, the amount promised to packages still open.
    pub locked: KeyMap<i128>,
    /// Per token, the amount ever paid out to claimants.
    pub claimed: KeyMap<i128>,
    pub packages: HashMap<u64, Package>,
    /// One above the highest package id handed out so far.
    pub package_counter: u64,
    /// Number of packages ever made; `index` maps `0..index_len` to their ids.
    pub index_len: u64,
    pub index: HashMap<u64, u64>,
}

pub struct EscrowView {
    pub admin: Option<Seq<u8>>,
    pub version: u32,
    pub config: ConfigView,
    pub paused: bool,
    pub create_paused: bool,
    pub claim_paused: bool,
    pub withdraw_paused: bool,
    pub distributors: Map<Seq<u8>, bool>,
    pub locked: Map<Seq<u8>, i128>,
    pub claimed: Map<Seq<u8>, i128>,
    pub packages: Map<u64, PackageView>,
    pub package_counter: u64,
    pub index_len: u64,
    pub index: Map<u64, u64>,
}

pub open spec fn bytes_opt_view(o: Option<Vec<u8>>) -> Option<Seq<u8>> {
    match o {
        Some(v) => Some(v@),
        None => None,
    }
}

impl View for AidEscrow {
    type V = EscrowView;

    open spec fn view(&self) -> EscrowView {
        EscrowView {
            admin: bytes_opt_view(self.admin),
            version: self.version,
            config: self.config@,
            paused: self.paused,
            create_paused: self.create_paused,
            claim_paused: self.claim_paused,
            withdraw_paused: self.withdraw_paused,
            distributors: self.distributors.view(),
            locked: self.locked.view(),
            claimed: self.claimed.view(),
            packages: self.packages@.map_values(|p: Package| p@),
            package_counter: self.package_counter,
            index_len: self.index_len,
            index: self.index@,
        }
    }
}

/// Groups of statuses that the aggregates add up.
pub enum StatusGroup {
    /// Packages still open: `Created`.
    Committed,
    /// Packages paid out: `Claimed`.
    Paid,
    /// Packages that ended unpaid: `Expired`, `Cancelled`, `Refunded`.
    Closed,
}

pub open spec fn in_group(g: StatusGroup, st: PackageStatus) -> bool {
    match g {
        StatusGroup::Committed => st == PackageStatus::Created,
        StatusGroup::Paid => st == PackageStatus::Claimed,
        StatusGroup::Closed => st == PackageStatus::Expired || st == PackageStatus::Cancelled
            || st == PackageStatus::Refunded,
    }
}

/// What one package adds to the sum of `token` over group `g`.
pub open spec fn share(p: PackageView, token: Seq<u8>, g: StatusGroup) -> int {
    if p.token == token && in_group(g, p.status) {
        p.amount as int
    } else {
        0
    }
}

impl EscrowView {
    pub open spec fn locked_of(self, token: Seq<u8>) -> i128 {
        if self.locked.contains_key(token) {
            self.locked[token]
        } else {
            0
        }
    }

    pub open spec fn claimed_of(self, token: Seq<u8>) -> i128 {
        if self.claimed.contains_key(token) {
            self.claimed[token]
        } else {
            0
        }
    }

    pub open spec fn is_distributor(self, a: Seq<u8>) -> bool {
        self.distributors.contains_key(a) && self.distributors[a]
    }

    /// The package made `k`-th, if any, as the aggregates read it.
    pub open spec fn indexed(self, k: int) -> Option<PackageView> {
        if 0 <= k <= u64::MAX && self.index.contains_key(k as u64) && self.packages.contains_key(
            self.index[k as u64],
        ) {
            Some(self.packages[self.index[k as u64]])
        } else {
            None
        }
    }

    /// The sum of amounts of `token` in group `g` over the first `n` packages made.
    pub open spec fn group_sum(self, token: Seq<u8>, g: StatusGroup, n: nat) -> int
        decreases n,
    {
        if n == 0 {
            0
        } else {
            self.group_sum(token, g, (n - 1) as nat) + match self.indexed(n - 1) {
                Some(p) => share(p, token, g),
                None => 0,
            }
        }
    }

    /// Amount of `token` promised to open packages.
    pub open spec fn committed(self, token: Seq<u8>) -> int {
        self.group_sum(token, StatusGroup::Committed, self.index_len as nat)
    }

    /// Every stored package carries its id, a positive amount, an id below the
    /// counter, and never the transient `Expired` status; and the counter is one
    /// above the highest stored id, or `0` while none is stored.
    pub open spec fn packages_ok(self) -> bool {
        &&& forall|id: u64|
            #![trigger self.packages[id]]
            self.packages.contains_key(id) ==> {
                &&& self.packages[id].id == id
                &&& self.packages[id].amount > 0
                &&& id < self.package_counter
                &&& self.packages[id].status != PackageStatus::Expired
            }
        &&& self.package_counter > 0 ==> self.packages.contains_key((self.package_counter - 1) as u64)
    }

    /// `index` numbers the packages `0..index_len`, each once.
    pub open spec fn index_ok(self) -> bool {
        &&& forall|k: u64| #[trigger] self.index.contains_key(k) <==> k < self.index_len
        &&& forall|k: u64| k < self.index_len ==> self.packages.contains_key(#[trigger] self.index[k])
        &&& forall|k1: u64, k2: u64|
            k1 < self.index_len && k2 < self.index_len && k1 != k2 ==> #[trigger] self.index[k1]
                != #[trigger] self.index[k2]
        &&& forall|id: u64|
            #[trigger] self.packages.contains_key(id) ==> exists|k: u64|
                k < self.index_len && #[trigger] self.index[k] == id
    }

    /// The locked amount of each token is what its open packages hold.
    pub open spec fn accounting_ok(self) -> bool {
        forall|token: Seq<u8>| #[trigger] self.locked_of(token) as int == self.committed(token)
    }

    /// Claimed totals never go negative.
    pub open spec fn claims_ok(self) -> bool {
        forall|token: Seq<u8>| #[trigger] self.claimed_of(token) >= 0
    }

    /// Before an admin is set nothing can have been paused or made: every pause
    /// switch is off and no package is stored.
    pub open spec fn admin_ok(self) -> bool {
        self.admin is None ==> {
            &&& !self.paused
            &&& !self.create_paused
            &&& !self.claim_paused
            &&& !self.withdraw_paused
            &&& self.packages.is_empty()
        }
    }

    /// The invariant that every entrypoint keeps.
    pub open spec fn wf(self) -> bool {
        &&& self.admin_ok()
        &&& self.claims_ok()
        &&& self.packages_ok()
        &&& self.index_ok()
        &&& self.accounting_ok()
    }
}

impl AidEscrow {
    pub open spec fn wf(&self) -> bool {
        &&& self@.wf()
        &&& self.parts_wf()
    }

    /// The byte-keyed maps and every package's metadata are well formed.
    pub open spec fn parts_wf(&self) -> bool {
        &&& self.distributors.wf()
        &&& self.locked.wf()
        &&& self.claimed.wf()
        &&& forall|id: u64| #[trigger] self.packages@.contains_key(id) ==> self.packages@[id].metadata.wf()
    }

    /// A fresh, uninitialized escrow.
    pub fn new() -> (s: AidEscrow)
        ensures
            s.wf(),
            s@.admin is None,
            s@.version == 0,
            s@.config == crate::types::default_config(),
            !s@.paused && !s@.create_paused && !s@.claim_paused && !s@.withdraw_paused,
            s@.distributors.is_empty(),
            s@.locked.is_empty(),
            s@.claimed.is_empty(),
            s@.packages.is_empty(),
            s@.package_counter == 0,
            s@.index_len == 0,
    {
        let s = AidEscrow {
            admin: None,
            version: 0,
            config: Config::default_config(),
            paused: false,
            create_paused: false,
            claim_paused: false,
            withdraw_paused: false,
            distributors: KeyMap::new(),
            locked: KeyMap::new(),
            claimed: KeyMap::new(),
            packages: HashMap::new(),
            package_counter: 0,
            index_len: 0,
            index: HashMap::new(),
        };
        proof {
            assert(s@.packages =~= Map::<u64, PackageView>::empty());
            assert forall|token: Seq<u8>| #[trigger] s@.locked_of(token) as int == s@.committed(token) by {}
        }
        s
    }
}

} // verus!
