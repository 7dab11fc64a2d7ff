//! Making packages: one at a time with a chosen id, or in batches numbered by the counter.
use vstd::prelude::*;

use crate::accounting::lemma_sum_append;
use crate::admin::{accepted_decimals, create_action, create_action_bytes, pow10};
use crate::codec::parsed_u64;
use crate::keymap::{bytes_eq, copy_bytes};
use crate::state::{AidEscrow, EscrowView, StatusGroup};
use crate::types::{Error, Metadata, Package, PackageStatus, PackageView};

verus! {

broadcast use vstd::std_specs::hash::group_hash_axioms;

/// The bytes of `claim_starts_at`, the metadata entry that delays claims.
pub open spec fn claim_starts_at_key() -> Seq<u8> {
    seq![99u8, 108u8, 97u8, 105u8, 109u8, 95u8, 115u8, 116u8, 97u8, 114u8, 116u8, 115u8, 95u8, 97u8, 116u8]
}

pub fn claim_starts_at_key_bytes() -> (r: Vec<u8>)
    ensures
        r@ == claim_starts_at_key(),
{
    vec![99u8, 108u8, 97u8, 105u8, 109u8, 95u8, 115u8, 116u8, 97u8, 114u8, 116u8, 115u8, 95u8, 97u8, 116u8]
}

/// When claims may start: the decimal `claim_starts_at` entry if there is one
/// (`None` when it does not parse), else `created_at`.
pub open spec fn claim_start_of(metadata: Map<Seq<u8>, Seq<u8>>, created_at: u64) -> Option<u64> {
    if metadata.contains_key(claim_starts_at_key()) {
        parsed_u64(metadata[claim_starts_at_key()])
    } else {
        Some(created_at)
    }
}

/// Whether the configuration admits `token`: its list is empty or holds it.
pub open spec fn token_admitted(s: EscrowView, token: Seq<u8>) -> bool {
    s.config.allowed_tokens.len() == 0 || s.config.allowed_tokens.contains(token)
}

/// The package that `create_package` stores.
pub open spec fn new_package(
    id: u64,
    recipient: Seq<u8>,
    amount: i128,
    token: Seq<u8>,
    created_at: u64,
    expires_at: u64,
    claim_starts_at: u64,
    metadata: Map<Seq<u8>, Seq<u8>>,
) -> PackageView {
    PackageView {
        id,
        recipient,
        amount,
        token,
        status: PackageStatus::Created,
        created_at,
        expires_at,
        claim_starts_at,
        metadata,
    }
}

/// Why `create_package` refuses before it reads the escrow's balance, if it does.
pub open spec fn create_precheck(
    s: EscrowView,
    operator: Seq<u8>,
    id: u64,
    amount: i128,
    token: Seq<u8>,
    expires_at: u64,
    now: u64,
    decimals: Option<u32>,
) -> Option<Error> {
    if s.action_paused(create_action()) {
        Some(Error::ContractPaused)
    } else if s.operator_refusal(operator) is Some {
        s.operator_refusal(operator)
    } else if amount <= 0 {
        Some(Error::InvalidAmount)
    } else if !accepted_decimals(decimals) {
        Some(Error::InvalidToken)
    } else if (amount as int) % pow10(decimals->0 as nat) != 0 {
        Some(Error::InvalidAmount)
    } else if amount < s.config.min_amount {
        Some(Error::InvalidAmount)
    } else if !token_admitted(s, token) {
        Some(Error::InvalidState)
    } else if s.config.max_expires_in > 0 && (expires_at == 0 || expires_at <= now || expires_at
        - now > s.config.max_expires_in) {
        Some(Error::InvalidState)
    } else if s.packages.contains_key(id) {
        Some(Error::PackageIdExists)
    } else {
        None
    }
}

/// Why `create_package` refuses, if it does.
pub open spec fn create_refusal(
    s: EscrowView,
    operator: Seq<u8>,
    id: u64,
    amount: i128,
    token: Seq<u8>,
    expires_at: u64,
    metadata: Map<Seq<u8>, Seq<u8>>,
    now: u64,
    decimals: Option<u32>,
    balance: Option<i128>,
) -> Option<Error> {
    if create_precheck(s, operator, id, amount, token, expires_at, now, decimals) is Some {
        create_precheck(s, operator, id, amount, token, expires_at, now, decimals)
    } else if balance is None {
        Some(Error::InvalidToken)
    } else if balance->0 < s.locked_of(token) + amount {
        Some(Error::InsufficientFunds)
    } else {
        match claim_start_of(metadata, now) {
            None => Some(Error::InvalidState),
            Some(c) => if c < now || (expires_at > 0 && c > expires_at) {
                Some(Error::InvalidState)
            } else {
                None
            },
        }
    }
}

/// Why `batch_create_packages` refuses before it looks at the packages, if it does.
pub open spec fn batch_precheck(
    s: EscrowView,
    operator: Seq<u8>,
    n_recipients: nat,
    n_amounts: nat,
    n_metadatas: nat,
    token: Seq<u8>,
    expires_in: u64,
    decimals: Option<u32>,
    balance: Option<i128>,
) -> Option<Error> {
    if s.action_paused(create_action()) {
        Some(Error::ContractPaused)
    } else if s.operator_refusal(operator) is Some {
        s.operator_refusal(operator)
    } else if n_recipients != n_amounts || n_recipients != n_metadatas {
        Some(Error::MismatchedArrays)
    } else if !token_admitted(s, token) {
        Some(Error::InvalidState)
    } else if s.config.max_expires_in > 0 && (expires_in == 0 || expires_in > s.config.max_expires_in) {
        Some(Error::InvalidState)
    } else if !accepted_decimals(decimals) {
        Some(Error::InvalidToken)
    } else if balance is None {
        Some(Error::InvalidToken)
    } else {
        None
    }
}

/// Why one package of a batch fails its own checks, if it does: its claim start
/// and its amount, before the escrow's balance is looked at.
pub open spec fn batch_item_check(
    amount: i128,
    metadata: Map<Seq<u8>, Seq<u8>>,
    now: u64,
    expires_at: u64,
    min_amount: i128,
    unit: int,
) -> Option<Error> {
    match claim_start_of(metadata, now) {
        None => Some(Error::InvalidState),
        Some(c) => if c > expires_at {
            Some(Error::InvalidState)
        } else if amount <= 0 {
            Some(Error::InvalidAmount)
        } else if amount < min_amount || (amount as int) % unit != 0 {
            Some(Error::InvalidAmount)
        } else {
            None
        },
    }
}

/// Why one package of a batch is refused, if it is, with `current` of the token
/// locked before it.
pub open spec fn batch_item_refusal(
    amount: i128,
    metadata: Map<Seq<u8>, Seq<u8>>,
    now: u64,
    expires_at: u64,
    min_amount: i128,
    unit: int,
    balance: i128,
    current: int,
) -> Option<Error> {
    if batch_item_check(amount, metadata, now, expires_at, min_amount, unit) is Some {
        batch_item_check(amount, metadata, now, expires_at, min_amount, unit)
    } else if balance < current + amount {
        Some(Error::InsufficientFunds)
    } else {
        None
    }
}

/// The sum of the first `k` amounts.
pub open spec fn amount_sum(amounts: Seq<i128>, k: nat) -> int
    decreases k,
{
    if k == 0 {
        0
    } else {
        amount_sum(amounts, (k - 1) as nat) + amounts[k - 1]
    }
}

/// The first refusal among the first `k` packages of a batch, if any; each sees
/// the amounts of those before it locked on top of `locked`.
pub open spec fn batch_items_refusal(
    amounts: Seq<i128>,
    metadatas: Seq<Map<Seq<u8>, Seq<u8>>>,
    now: u64,
    expires_at: u64,
    min_amount: i128,
    unit: int,
    balance: i128,
    locked: int,
    k: nat,
) -> Option<Error>
    decreases k,
{
    if k == 0 {
        None
    } else if batch_items_refusal(amounts, metadatas, now, expires_at, min_amount, unit, balance, locked, (k - 1) as nat) is Some {
        batch_items_refusal(amounts, metadatas, now, expires_at, min_amount, unit, balance, locked, (k - 1) as nat)
    } else {
        batch_item_refusal(amounts[k - 1], metadatas[k - 1], now, expires_at, min_amount, unit, balance,
            locked + amount_sum(amounts, (k - 1) as nat))
    }
}

/// Whether the package counter, the index and the locked total stay in range while
/// a batch's packages are checked in order. A package's amount is added to the
/// locked total once its own checks pass, and it is counted once it passes the
/// balance too; either only when no package before it was refused.
pub open spec fn batch_items_fit(
    amounts: Seq<i128>,
    metadatas: Seq<Map<Seq<u8>, Seq<u8>>>,
    now: u64,
    expires_at: u64,
    min_amount: i128,
    unit: int,
    balance: i128,
    locked: int,
    counter: u64,
    index_len: u64,
) -> bool {
    &&& forall|j: nat|
        1 <= j <= amounts.len() && #[trigger] batch_items_refusal(amounts, metadatas, now, expires_at,
            min_amount, unit, balance, locked, j) is None ==> counter + j <= u64::MAX && index_len + j
            <= u64::MAX
    &&& forall|k: int|
        #![trigger batch_item_check(amounts[k], metadatas[k], now, expires_at, min_amount, unit)]
        0 <= k < amounts.len() && batch_items_refusal(amounts, metadatas, now, expires_at, min_amount, unit,
            balance, locked, k as nat) is None && batch_item_check(amounts[k], metadatas[k], now, expires_at,
            min_amount, unit) is None ==> locked + amount_sum(amounts, k as nat) + amounts[k] <= i128::MAX
}

/// Whether a batch that passes its first checks stays in range: its expiry is a
/// `u64`, and so are the counter and the index, and the locked total an `i128`,
/// as far as its packages are checked.
pub open spec fn batch_fits(
    s: EscrowView,
    amounts: Seq<i128>,
    token: Seq<u8>,
    expires_in: u64,
    metadatas: Seq<Map<Seq<u8>, Seq<u8>>>,
    now: u64,
    decimals: Option<u32>,
    balance: Option<i128>,
) -> bool {
    &&& now + expires_in <= u64::MAX
    &&& batch_items_fit(amounts, metadatas, now, (now + expires_in) as u64, s.config.min_amount,
        pow10(decimals->0 as nat), balance->0, s.locked_of(token) as int, s.package_counter, s.index_len)
}

/// Why `batch_create_packages` refuses, if it does.
pub open spec fn batch_refusal(
    s: EscrowView,
    operator: Seq<u8>,
    recipients: Seq<Seq<u8>>,
    amounts: Seq<i128>,
    token: Seq<u8>,
    expires_in: u64,
    metadatas: Seq<Map<Seq<u8>, Seq<u8>>>,
    now: u64,
    decimals: Option<u32>,
    balance: Option<i128>,
) -> Option<Error> {
    if batch_precheck(s, operator, recipients.len(), amounts.len(), metadatas.len(), token, expires_in, decimals, balance) is Some {
        batch_precheck(s, operator, recipients.len(), amounts.len(), metadatas.len(), token, expires_in, decimals, balance)
    } else {
        batch_items_refusal(amounts, metadatas, now, (now + expires_in) as u64, s.config.min_amount,
            pow10(decimals->0 as nat), balance->0, s.locked_of(token) as int, amounts.len())
    }
}

/// The state after the first `k` packages of a batch are stored, numbered from the counter.
pub open spec fn batch_effect(
    s: EscrowView,
    recipients: Seq<Seq<u8>>,
    amounts: Seq<i128>,
    token: Seq<u8>,
    now: u64,
    expires_at: u64,
    metadatas: Seq<Map<Seq<u8>, Seq<u8>>>,
    k: nat,
) -> EscrowView
    decreases k,
{
    if k == 0 {
        s
    } else {
        let t = batch_effect(s, recipients, amounts, token, now, expires_at, metadatas, (k - 1) as nat);
        t.after_create(new_package(t.package_counter, recipients[k - 1], amounts[k - 1], token, now,
            expires_at, claim_start_of(metadatas[k - 1], now)->0, metadatas[k - 1]))
    }
}

pub proof fn lemma_items_sticky(
    amounts: Seq<i128>,
    metadatas: Seq<Map<Seq<u8>, Seq<u8>>>,
    now: u64,
    expires_at: u64,
    min_amount: i128,
    unit: int,
    balance: i128,
    locked: int,
    k: nat,
    n: nat,
)
    requires
        k <= n,
        batch_items_refusal(amounts, metadatas, now, expires_at, min_amount, unit, balance, locked, k) is Some,
    ensures
        batch_items_refusal(amounts, metadatas, now, expires_at, min_amount, unit, balance, locked, n)
            == batch_items_refusal(amounts, metadatas, now, expires_at, min_amount, unit, balance, locked, k),
    decreases n,
{
    if k < n {
        lemma_items_sticky(amounts, metadatas, now, expires_at, min_amount, unit, balance, locked, k, (n - 1) as nat);
    }
}

pub proof fn lemma_items_prefix(
    amounts: Seq<i128>,
    metadatas: Seq<Map<Seq<u8>, Seq<u8>>>,
    now: u64,
    expires_at: u64,
    min_amount: i128,
    unit: int,
    balance: i128,
    locked: int,
    k: nat,
    n: nat,
)
    requires
        k < n,
        batch_items_refusal(amounts, metadatas, now, expires_at, min_amount, unit, balance, locked, n) is None,
    ensures
        batch_items_refusal(amounts, metadatas, now, expires_at, min_amount, unit, balance, locked, k) is None,
        batch_item_refusal(amounts[k as int], metadatas[k as int], now, expires_at, min_amount, unit, balance,
            locked + amount_sum(amounts, k)) is None,
    decreases n,
{
    if k + 1 < n {
        lemma_items_prefix(amounts, metadatas, now, expires_at, min_amount, unit, balance, locked, k, (n - 1) as nat);
    }
}

/// A batch whose package `i` is the first refused stays in range as far as the
/// packages before it, and its own amount, do.
proof fn lemma_fit_when_refused(
    amounts: Seq<i128>,
    metadatas: Seq<Map<Seq<u8>, Seq<u8>>>,
    now: u64,
    expires_at: u64,
    min_amount: i128,
    unit: int,
    balance: i128,
    locked: int,
    counter: u64,
    index_len: u64,
    i: nat,
)
    requires
        i < amounts.len(),
        batch_items_refusal(amounts, metadatas, now, expires_at, min_amount, unit, balance, locked, i) is None,
        batch_items_refusal(amounts, metadatas, now, expires_at, min_amount, unit, balance, locked, i + 1) is Some,
        counter + i <= u64::MAX,
        index_len + i <= u64::MAX,
        forall|k: int| 0 <= k < i ==> locked + amount_sum(amounts, k as nat) + amounts[k] <= i128::MAX,
        batch_item_check(amounts[i as int], metadatas[i as int], now, expires_at, min_amount, unit) is None
            ==> locked + amount_sum(amounts, i) + amounts[i as int] <= i128::MAX,
    ensures
        batch_items_fit(amounts, metadatas, now, expires_at, min_amount, unit, balance, locked, counter, index_len),
{
    assert forall|j: nat| i + 1 <= j <= amounts.len() implies #[trigger] batch_items_refusal(amounts, metadatas,
        now, expires_at, min_amount, unit, balance, locked, j) is Some by {
        lemma_items_sticky(amounts, metadatas, now, expires_at, min_amount, unit, balance, locked, i + 1, j);
    }
    assert forall|k: int| i < k < amounts.len() implies #[trigger] batch_items_refusal(amounts, metadatas, now,
        expires_at, min_amount, unit, balance, locked, k as nat) is Some by {
        lemma_items_sticky(amounts, metadatas, now, expires_at, min_amount, unit, balance, locked, i + 1, k as nat);
    }
}

/// How a walk over a batch's packages ends.
enum BatchScan {
    /// Every package passes.
    Passes,
    /// A package is refused, for this reason.
    Refused(Error),
    /// A counter or the locked total would leave its range first.
    Overflows,
}

impl EscrowView {
    /// The state after storing the new package `p`.
    pub open spec fn after_create(self, p: PackageView) -> EscrowView {
        EscrowView {
            locked: self.locked.insert(p.token, (self.locked_of(p.token) + p.amount) as i128),
            packages: self.packages.insert(p.id, p),
            package_counter: if p.id >= self.package_counter {
                (p.id + 1) as u64
            } else {
                self.package_counter
            },
            index: self.index.insert(self.index_len, p.id),
            index_len: (self.index_len + 1) as u64,
            ..self
        }
    }
}

/// Storing a new package keeps the invariant.
pub proof fn lemma_after_create_wf(s: EscrowView, p: PackageView)
    requires
        s.wf(),
        s.admin is Some,
        !s.packages.contains_key(p.id),
        p.amount > 0,
        p.status == PackageStatus::Created,
        p.id < u64::MAX,
        s.index_len < u64::MAX,
        s.locked_of(p.token) + p.amount <= i128::MAX,
    ensures
        s.after_create(p).wf(),
{
    let s2 = s.after_create(p);
    let mid = EscrowView {
        packages: s.packages.insert(p.id, p),
        index: s.index.insert(s.index_len, p.id),
        index_len: (s.index_len + 1) as u64,
        ..s
    };
    assert(s2.packages_ok());
    assert forall|token: Seq<u8>| #[trigger] s2.claimed_of(token) >= 0 by {
        assert(s.claimed_of(token) >= 0);
    }
    assert(s2.index_ok()) by {
        assert forall|id: u64| #[trigger] s2.packages.contains_key(id) implies exists|k: u64|
            k < s2.index_len && #[trigger] s2.index[k] == id by {
            if id == p.id {
                assert(s2.index[s.index_len] == id);
            } else {
                let k = choose|k: u64| k < s.index_len && #[trigger] s.index[k] == id;
                assert(s2.index[k] == id);
            }
        }
        assert forall|k1: u64, k2: u64|
            k1 < s2.index_len && k2 < s2.index_len && k1 != k2 implies #[trigger] s2.index[k1]
                != #[trigger] s2.index[k2] by {
            if k1 < s.index_len {
                assert(s.index.contains_key(k1));
                assert(s.packages.contains_key(s.index[k1]));
            }
            if k2 < s.index_len {
                assert(s.index.contains_key(k2));
                assert(s.packages.contains_key(s.index[k2]));
            }
        }
    }
    assert forall|token: Seq<u8>| #[trigger] s2.locked_of(token) as int == s2.committed(token) by {
        lemma_sum_append(s, p.id, p, token, StatusGroup::Committed);
        assert(s.locked_of(token) as int == s.committed(token));
        assert forall|k: int| 0 <= k < mid.index_len implies #[trigger] s2.indexed(k) == mid.indexed(k) by {}
        crate::accounting::lemma_sum_frame(s2, mid, token, StatusGroup::Committed, mid.index_len as nat);
    }
}

impl AidEscrow {
    /// When claims may start for a package made at `created_at`: the value of the
    /// `claim_starts_at` entry, which must be a decimal `u64`, else `created_at`.
    pub fn resolve_claim_starts_at(metadata: &Metadata, created_at: u64) -> (r: Result<u64, Error>)
        requires
            metadata.wf(),
        ensures
            r == (match claim_start_of(metadata.view(), created_at) {
                Some(c) => Ok(c),
                None => Err(Error::InvalidState),
            }),
    {
        match metadata.get(claim_starts_at_key_bytes().as_slice()) {
            Some(raw) => match Self::parse_u64(raw.as_slice()) {
                Some(c) => Ok(c),
                None => Err(Error::InvalidState),
            },
            None => Ok(created_at),
        }
    }

    /// Whether the configuration admits `token`.
    pub fn token_admitted(&self, token: &[u8]) -> (b: bool)
        ensures
            b == token_admitted(self@, token@),
    {
        let allowed = &self.config.allowed_tokens;
        if allowed.len() == 0 {
            return true;
        }
        let ghost list = self@.config.allowed_tokens;
        let mut i: usize = 0;
        while i < allowed.len()
            invariant
                allowed == &self.config.allowed_tokens,
                list == self@.config.allowed_tokens,
                list == allowed@.map_values(|t: Vec<u8>| t@),
                i <= allowed@.len(),
                forall|j: int| 0 <= j < i ==> list[j] != token@,
            decreases allowed@.len() - i,
        {
            if bytes_eq(allowed[i].as_slice(), token) {
                assert(list[i as int] == token@);
                return true;
            }
            i += 1;
        }
        false
    }

    /// Stores new package `package`, appends it to the index and locks its amount;
    /// `current_locked` is what its token has locked before.
    fn store_new_package(&mut self, package: Package, current_locked: i128)
        requires
            old(self).wf(),
            old(self)@.admin is Some,
            package.metadata.wf(),
            !old(self)@.packages.contains_key(package.id),
            package.amount > 0,
            package.status == PackageStatus::Created,
            package.id < u64::MAX,
            old(self)@.index_len < u64::MAX,
            current_locked == old(self)@.locked_of(package.token@),
            current_locked + package.amount <= i128::MAX,
        ensures
            final(self).wf(),
            final(self)@ == old(self)@.after_create(package@),
    {
        let ghost old_view = self@;
        let ghost p = package@;
        proof {
            lemma_after_create_wf(old_view, p);
        }
        let id = package.id;
        self.locked.set(copy_bytes(&package.token), current_locked + package.amount);
        self.packages.insert(id, package);
        if id >= self.package_counter {
            self.package_counter = id + 1;
        }
        self.index.insert(self.index_len, id);
        self.index_len = self.index_len + 1;
        proof {
            assert(self@.packages =~= old_view.packages.insert(id, p));
            assert(self@ == old_view.after_create(p));
        }
    }

    /// Why `create_package` refuses before it reads the escrow's balance, if it does.
    pub fn create_first_check(
        &self,
        operator: &[u8],
        id: u64,
        amount: i128,
        token: &[u8],
        expires_at: u64,
        now: u64,
        decimals: Option<u32>,
    ) -> (r: Option<Error>)
        requires
            self.wf(),
        ensures
            r == create_precheck(self@, operator@, id, amount, token@, expires_at, now, decimals),
    {
        if let Err(e) = self.check_action_paused(create_action_bytes().as_slice()) {
            return Some(e);
        }
        if let Err(e) = self.require_admin_or_distributor(operator) {
            return Some(e);
        }
        if amount <= 0 {
            return Some(Error::InvalidAmount);
        }
        let d = match Self::validate_token(decimals) {
            Ok(d) => d,
            Err(e) => {
                return Some(e);
            },
        };
        let unit = Self::unit_of(d);
        assert((amount as u128) % (unit as u128) == (amount as int) % pow10(d as nat));
        if (amount as u128) % (unit as u128) != 0 {
            return Some(Error::InvalidAmount);
        }
        if amount < self.config.min_amount {
            return Some(Error::InvalidAmount);
        }
        if !self.token_admitted(token) {
            return Some(Error::InvalidState);
        }
        if self.config.max_expires_in > 0 {
            if expires_at == 0 || expires_at <= now || expires_at - now > self.config.max_expires_in {
                return Some(Error::InvalidState);
            }
        }
        if self.packages.contains_key(&id) {
            return Some(Error::PackageIdExists);
        }
        None
    }

    /// Whether `create_package` on these arguments would leave the range of an
    /// integer before it answers: the locked total once the first checks pass and
    /// the balance is known, or the counter or the index once every check passes.
    pub fn create_package_would_overflow(
        &self,
        operator: &[u8],
        id: u64,
        amount: i128,
        token: &[u8],
        expires_at: u64,
        metadata: &Metadata,
        now: u64,
        decimals: Option<u32>,
        balance: Option<i128>,
    ) -> (b: bool)
        requires
            self.wf(),
            metadata.wf(),
        ensures
            b == ((create_precheck(self@, operator@, id, amount, token@, expires_at, now, decimals) is None
                && balance is Some && self@.locked_of(token@) + amount > i128::MAX) || (create_refusal(self@,
                operator@, id, amount, token@, expires_at, metadata.view(), now, decimals, balance) is None && (id
                == u64::MAX || self@.index_len == u64::MAX))),
    {
        if self.create_first_check(operator, id, amount, token, expires_at, now, decimals).is_some() {
            return false;
        }
        let contract_balance = match balance {
            Some(b) => b,
            None => {
                return false;
            },
        };
        let current_locked = self.get_total_locked(token);
        if current_locked > i128::MAX - amount {
            return true;
        }
        if contract_balance < current_locked + amount {
            return false;
        }
        match Self::resolve_claim_starts_at(metadata, now) {
            Ok(c) => {
                if c < now || (expires_at > 0 && c > expires_at) {
                    return false;
                }
            },
            Err(_) => {
                return false;
            },
        }
        id == u64::MAX || self.index_len == u64::MAX
    }

    /// Makes package `id`: `amount` of `token` for `recipient`, expiring at
    /// `expires_at` (`0` for never), with `metadata`. `operator` is the admin or a
    /// distributor; `now` is the ledger time; `decimals` and `balance` are what the
    /// token's `decimals` call and `balance` call for the escrow returned.
    pub fn create_package(
        &mut self,
        operator: &[u8],
        id: u64,
        recipient: Vec<u8>,
        amount: i128,
        token: Vec<u8>,
        expires_at: u64,
        metadata: Metadata,
        now: u64,
        decimals: Option<u32>,
        balance: Option<i128>,
    ) -> (r: Result<u64, Error>)
        requires
            old(self).wf(),
            metadata.wf(),
            create_precheck(old(self)@, operator@, id, amount, token@, expires_at, now, decimals) is None
                && balance is Some ==> old(self)@.locked_of(token@) + amount <= i128::MAX,
            create_refusal(old(self)@, operator@, id, amount, token@, expires_at, metadata.view(), now, decimals, balance) is None
                ==> id < u64::MAX && old(self)@.index_len < u64::MAX,
        ensures
            final(self).wf(),
            r == (match create_refusal(old(self)@, operator@, id, amount, token@, expires_at, metadata.view(), now, decimals, balance) {
                Some(e) => Err(e),
                None => Ok(id),
            }),
            r is Ok ==> final(self)@ == old(self)@.after_create(
                new_package(id, recipient@, amount, token@, now, expires_at,
                    claim_start_of(metadata.view(), now)->0, metadata.view()),
            ),
            r is Err ==> final(self)@ == old(self)@,
    {
        if let Some(e) = self.create_first_check(operator, id, amount, token.as_slice(), expires_at, now, decimals) {
            return Err(e);
        }
        let contract_balance = Self::token_balance(balance)?;
        let current_locked = self.get_total_locked(token.as_slice());
        if contract_balance < current_locked + amount {
            return Err(Error::InsufficientFunds);
        }
        let claim_starts_at = Self::resolve_claim_starts_at(&metadata, now)?;
        if claim_starts_at < now || (expires_at > 0 && claim_starts_at > expires_at) {
            return Err(Error::InvalidState);
        }
        let package = Package {
            id,
            recipient,
            amount,
            token,
            status: PackageStatus::Created,
            created_at: now,
            expires_at,
            claim_starts_at,
            metadata,
        };
        self.store_new_package(package, current_locked);
        Ok(id)
    }

    /// Checks a batch's packages in order, as `batch_create_packages` does: each
    /// package's own checks, then the balance against what is locked with it, then
    /// the count of packages and the index.
    fn scan_batch(
        amounts: &Vec<i128>,
        metadatas: &Vec<Metadata>,
        now: u64,
        expires_at: u64,
        min_amount: i128,
        unit: i128,
        balance: i128,
        locked: i128,
        counter: u64,
        index_len: u64,
    ) -> (r: BatchScan)
        requires
            amounts@.len() == metadatas@.len(),
            forall|i: int| 0 <= i < metadatas@.len() ==> (#[trigger] metadatas@[i]).wf(),
            unit >= 1,
        ensures
            (r is Overflows) == !batch_items_fit(amounts@, metadatas@.map_values(|m: Metadata| m.view()), now,
                expires_at, min_amount, unit as int, balance, locked as int, counter, index_len),
            r is Passes ==> batch_items_refusal(amounts@, metadatas@.map_values(|m: Metadata| m.view()), now,
                expires_at, min_amount, unit as int, balance, locked as int, amounts@.len()) is None,
            r matches BatchScan::Refused(e) ==> batch_items_refusal(amounts@, metadatas@.map_values(
                |m: Metadata| m.view()), now, expires_at, min_amount, unit as int, balance, locked as int,
                amounts@.len()) == Some(e),
    {
        let n = amounts.len();
        let ghost metas = metadatas@.map_values(|m: Metadata| m.view());
        let mut current = locked;
        let mut i: usize = 0;
        while i < n
            invariant
                n == amounts@.len(),
                n == metadatas@.len(),
                metas == metadatas@.map_values(|m: Metadata| m.view()),
                forall|j: int| 0 <= j < metadatas@.len() ==> (#[trigger] metadatas@[j]).wf(),
                i <= n,
                unit >= 1,
                current as int == locked + amount_sum(amounts@, i as nat),
                counter + i <= u64::MAX,
                index_len + i <= u64::MAX,
                forall|k: int| 0 <= k < i ==> locked + amount_sum(amounts@, k as nat) + amounts@[k] <= i128::MAX,
                batch_items_refusal(amounts@, metas, now, expires_at, min_amount, unit as int, balance,
                    locked as int, i as nat) is None,
            decreases n - i,
        {
            let amount = amounts[i];
            assert(metas[i as int] == metadatas@[i as int].view());
            let ghost check = batch_item_check(amount, metas[i as int], now, expires_at, min_amount, unit as int);
            let ghost refused = batch_items_refusal(amounts@, metas, now, expires_at, min_amount, unit as int,
                balance, locked as int, (i + 1) as nat);
            let claim_starts_at = match Self::resolve_claim_starts_at(&metadatas[i], now) {
                Ok(c) => c,
                Err(e) => {
                    proof {
                        lemma_fit_when_refused(amounts@, metas, now, expires_at, min_amount, unit as int, balance,
                            locked as int, counter, index_len, i as nat);
                        lemma_items_sticky(amounts@, metas, now, expires_at, min_amount, unit as int, balance,
                            locked as int, (i + 1) as nat, n as nat);
                    }
                    return BatchScan::Refused(e);
                },
            };
            let own = if claim_starts_at > expires_at {
                Some(Error::InvalidState)
            } else if amount <= 0 {
                Some(Error::InvalidAmount)
            } else {
                assert((amount as u128) % (unit as u128) == (amount as int) % (unit as int));
                if amount < min_amount || (amount as u128) % (unit as u128) != 0 {
                    Some(Error::InvalidAmount)
                } else {
                    None
                }
            };
            assert(own == check);
            if let Some(e) = own {
                proof {
                    lemma_fit_when_refused(amounts@, metas, now, expires_at, min_amount, unit as int, balance,
                        locked as int, counter, index_len, i as nat);
                    lemma_items_sticky(amounts@, metas, now, expires_at, min_amount, unit as int, balance,
                        locked as int, (i + 1) as nat, n as nat);
                }
                return BatchScan::Refused(e);
            }
            assert(check is None);
            if current > i128::MAX - amount {
                return BatchScan::Overflows;
            }
            let next = current + amount;
            if balance < next {
                proof {
                    lemma_fit_when_refused(amounts@, metas, now, expires_at, min_amount, unit as int, balance,
                        locked as int, counter, index_len, i as nat);
                    lemma_items_sticky(amounts@, metas, now, expires_at, min_amount, unit as int, balance,
                        locked as int, (i + 1) as nat, n as nat);
                }
                return BatchScan::Refused(Error::InsufficientFunds);
            }
            assert(refused is None);
            if counter == u64::MAX - i as u64 || index_len == u64::MAX - i as u64 {
                assert(batch_items_refusal(amounts@, metas, now, expires_at, min_amount, unit as int, balance,
                    locked as int, (i + 1) as nat) is None);
                return BatchScan::Overflows;
            }
            current = next;
            i += 1;
        }
        BatchScan::Passes
    }

    /// Why `batch_create_packages` refuses before it looks at the packages, if it does.
    fn batch_first_check(
        &self,
        operator: &[u8],
        n_recipients: usize,
        n_amounts: usize,
        n_metadatas: usize,
        token: &[u8],
        expires_in: u64,
        decimals: Option<u32>,
        balance: Option<i128>,
    ) -> (r: Option<Error>)
        requires
            self.wf(),
        ensures
            r == batch_precheck(self@, operator@, n_recipients as nat, n_amounts as nat, n_metadatas as nat,
                token@, expires_in, decimals, balance),
    {
        if let Err(e) = self.check_action_paused(create_action_bytes().as_slice()) {
            return Some(e);
        }
        if let Err(e) = self.require_admin_or_distributor(operator) {
            return Some(e);
        }
        if n_recipients != n_amounts || n_recipients != n_metadatas {
            return Some(Error::MismatchedArrays);
        }
        if !self.token_admitted(token) {
            return Some(Error::InvalidState);
        }
        let max = self.config.max_expires_in;
        if max > 0 && (expires_in == 0 || expires_in > max) {
            return Some(Error::InvalidState);
        }
        if let Err(e) = Self::validate_token(decimals) {
            return Some(e);
        }
        if let Err(e) = Self::token_balance(balance) {
            return Some(e);
        }
        None
    }

    /// Whether `batch_create_packages` on these arguments would pass its first
    /// checks and then leave the range of its expiry, counter, index or locked total.
    pub fn batch_would_overflow(
        &self,
        operator: &[u8],
        recipients: &Vec<Vec<u8>>,
        amounts: &Vec<i128>,
        token: &Vec<u8>,
        expires_in: u64,
        metadatas: &Vec<Metadata>,
        now: u64,
        decimals: Option<u32>,
        balance: Option<i128>,
    ) -> (b: bool)
        requires
            self.wf(),
            forall|i: int| 0 <= i < metadatas@.len() ==> (#[trigger] metadatas@[i]).wf(),
        ensures
            b == (batch_precheck(self@, operator@, recipients@.len(), amounts@.len(), metadatas@.len(), token@,
                expires_in, decimals, balance) is None && !batch_fits(self@, amounts@, token@, expires_in,
                metadatas@.map_values(|m: Metadata| m.view()), now, decimals, balance)),
    {
        let first = self.batch_first_check(operator, recipients.len(), amounts.len(), metadatas.len(),
            token.as_slice(), expires_in, decimals, balance);
        if first.is_some() {
            return false;
        }
        if now > u64::MAX - expires_in {
            return true;
        }
        let d = match decimals {
            Some(d) => d,
            None => 0,
        };
        let contract_balance = match balance {
            Some(b) => b,
            None => 0,
        };
        let unit = Self::unit_of(d);
        let locked0 = self.get_total_locked(token.as_slice());
        match Self::scan_batch(amounts, metadatas, now, now + expires_in, self.config.min_amount, unit,
            contract_balance, locked0, self.package_counter, self.index_len) {
            BatchScan::Overflows => true,
            _ => false,
        }
    }

    /// Makes one package per recipient, numbered from the counter, all of `token`
    /// and expiring `expires_in` after `now`. `decimals` and `balance` are what the
    /// token's `decimals` call and `balance` call for the escrow returned.
    pub fn batch_create_packages(
        &mut self,
        operator: &[u8],
        recipients: &Vec<Vec<u8>>,
        amounts: &Vec<i128>,
        token: &Vec<u8>,
        expires_in: u64,
        metadatas: &Vec<Metadata>,
        now: u64,
        decimals: Option<u32>,
        balance: Option<i128>,
    ) -> (r: Result<Vec<u64>, Error>)
        requires
            old(self).wf(),
            forall|i: int| 0 <= i < metadatas@.len() ==> (#[trigger] metadatas@[i]).wf(),
            batch_precheck(old(self)@, operator@, recipients@.len(), amounts@.len(), metadatas@.len(),
                token@, expires_in, decimals, balance) is None ==> batch_fits(old(self)@, amounts@, token@,
                expires_in, metadatas@.map_values(|m: Metadata| m.view()), now, decimals, balance),
        ensures
            final(self).wf(),
            (match r {
                Ok(ids) => batch_refusal(old(self)@, operator@, recipients@.map_values(|v: Vec<u8>| v@), amounts@,
                    token@, expires_in, metadatas@.map_values(|m: Metadata| m.view()), now, decimals, balance) is None
                    && ids@ == Seq::new(amounts@.len(), |i: int| (old(self)@.package_counter + i) as u64)
                    && final(self)@ == batch_effect(old(self)@, recipients@.map_values(|v: Vec<u8>| v@), amounts@, token@, now,
                        (now + expires_in) as u64, metadatas@.map_values(|m: Metadata| m.view()), amounts@.len()),
                Err(e) => batch_refusal(old(self)@, operator@, recipients@.map_values(|v: Vec<u8>| v@), amounts@,
                    token@, expires_in, metadatas@.map_values(|m: Metadata| m.view()), now, decimals, balance) == Some(e)
                    && final(self)@ == old(self)@,
            }),
    {
        if let Some(e) = self.batch_first_check(operator, recipients.len(), amounts.len(), metadatas.len(),
            token.as_slice(), expires_in, decimals, balance) {
            return Err(e);
        }
        let d = match decimals {
            Some(d) => d,
            None => 0,
        };
        let contract_balance = match balance {
            Some(b) => b,
            None => 0,
        };
        let unit = Self::unit_of(d);
        let locked0 = self.get_total_locked(token.as_slice());
        let min_amount = self.config.min_amount;
        let created_at = now;
        let expires_at = created_at + expires_in;
        let n = amounts.len();
        let ghost s0 = self@;
        let ghost metas = metadatas@.map_values(|m: Metadata| m.view());
        let ghost recips = recipients@.map_values(|v: Vec<u8>| v@);
        proof {
            crate::accounting::lemma_locked_nonneg(s0, token@);
        }
        // Every package is checked before any is stored.
        match Self::scan_batch(amounts, metadatas, now, expires_at, min_amount, unit, contract_balance, locked0,
            self.package_counter, self.index_len) {
            BatchScan::Refused(e) => {
                return Err(e);
            },
            _ => {},
        }
        proof {
            assert forall|k: int| 0 <= k < n implies locked0 + amount_sum(amounts@, k as nat) + amounts@[k]
                <= i128::MAX by {
                lemma_items_prefix(amounts@, metas, now, expires_at, min_amount, unit as int, contract_balance,
                    locked0 as int, k as nat, n as nat);
                assert(batch_item_check(amounts@[k], metas[k], now, expires_at, min_amount, unit as int) is None);
            }
            if n > 0 {
                assert(batch_items_refusal(amounts@, metas, now, expires_at, min_amount, unit as int,
                    contract_balance, locked0 as int, n as nat) is None);
            }
        }
        // Then all are stored, numbered from the counter.
        let mut ids: Vec<u64> = Vec::new();
        let mut k: usize = 0;
        while k < n
            invariant
                n == amounts@.len(),
                n == metadatas@.len(),
                n == recipients@.len(),
                metas == metadatas@.map_values(|m: Metadata| m.view()),
                recips == recipients@.map_values(|v: Vec<u8>| v@),
                forall|j: int| 0 <= j < metadatas@.len() ==> (#[trigger] metadatas@[j]).wf(),
                k <= n,
                created_at == now,
                self.wf(),
                self@.admin is Some,
                unit == pow10(d as nat),
                locked0 == s0.locked_of(token@),
                locked0 >= 0,
                s0.package_counter + n <= u64::MAX,
                s0.index_len + n <= u64::MAX,
                forall|j: int| 0 <= j < n ==> locked0 + amount_sum(amounts@, j as nat) + amounts@[j] <= i128::MAX,
                self@ == batch_effect(s0, recips, amounts@, token@, now, expires_at, metas, k as nat),
                self@.package_counter == s0.package_counter + k,
                self@.index_len == s0.index_len + k,
                self@.locked_of(token@) == locked0 + amount_sum(amounts@, k as nat),
                ids@ == Seq::new(k as nat, |j: int| (s0.package_counter + j) as u64),
                batch_items_refusal(amounts@, metas, now, expires_at, min_amount, unit as int,
                    contract_balance, locked0 as int, n as nat) is None,
            decreases n - k,
        {
            proof {
                lemma_items_prefix(amounts@, metas, now, expires_at, min_amount, unit as int,
                    contract_balance, locked0 as int, k as nat, n as nat);
                assert(metas[k as int] == metadatas@[k as int].view());
                assert(recips[k as int] == recipients@[k as int]@);
            }
            let id = self.package_counter;
            let current_locked = self.get_total_locked(token.as_slice());
            let resolved = Self::resolve_claim_starts_at(&metadatas[k], created_at);
            let claim_starts_at = match resolved {
                Ok(c) => c,
                Err(_) => 0,
            };
            let package = Package {
                id,
                recipient: copy_bytes(&recipients[k]),
                amount: amounts[k],
                token: copy_bytes(token),
                status: PackageStatus::Created,
                created_at,
                expires_at,
                claim_starts_at,
                metadata: metadatas[k].copy(),
            };
            assert(package@ == new_package(self@.package_counter, recips[k as int], amounts@[k as int], token@,
                now, expires_at, claim_start_of(metas[k as int], now)->0, metas[k as int]));
            assert(!self@.packages.contains_key(id)) by {
                if self@.packages.contains_key(id) {
                    assert(self@.packages[id].id < self@.package_counter);
                }
            }
            self.store_new_package(package, current_locked);
            ids.push(id);
            proof {
                assert(ids@ =~= Seq::new((k + 1) as nat, |j: int| (s0.package_counter + j) as u64));
            }
            k += 1;
        }
        Ok(ids)
    }
}

} // verus!
