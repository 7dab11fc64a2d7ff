//! Facts about the per-token sums over the packages made so far.
use vstd::prelude::*;

use crate::state::{share, EscrowView, StatusGroup};
use crate::types::{PackageStatus, PackageView};

verus! {

/// Sums read the packages only through the index.
pub proof fn lemma_sum_frame(s1: EscrowView, s2: EscrowView, token: Seq<u8>, g: StatusGroup, n: nat)
    requires
        forall|k: int| 0 <= k < n ==> #[trigger] s1.indexed(k) == s2.indexed(k),
    ensures
        s1.group_sum(token, g, n) == s2.group_sum(token, g, n),
    decreases n,
{
    if n > 0 {
        lemma_sum_frame(s1, s2, token, g, (n - 1) as nat);
        assert(s1.indexed(n - 1) == s2.indexed(n - 1));
    }
}

/// Replacing the package at one position changes the sum by the difference of its shares.
pub proof fn lemma_sum_replace(
    s1: EscrowView,
    s2: EscrowView,
    token: Seq<u8>,
    g: StatusGroup,
    n: nat,
    k0: int,
)
    requires
        0 <= k0 < n,
        s1.indexed(k0) is Some,
        s2.indexed(k0) is Some,
        forall|k: int| 0 <= k < n && k != k0 ==> #[trigger] s1.indexed(k) == s2.indexed(k),
    ensures
        s2.group_sum(token, g, n) == s1.group_sum(token, g, n) - share(s1.indexed(k0)->0, token, g)
            + share(s2.indexed(k0)->0, token, g),
    decreases n,
{
    if n - 1 == k0 {
        lemma_sum_frame(s1, s2, token, g, (n - 1) as nat);
    } else {
        lemma_sum_replace(s1, s2, token, g, (n - 1) as nat, k0);
        assert(s1.indexed(n - 1) == s2.indexed(n - 1));
    }
}

/// With positive amounts every share is non-negative, so sums only grow with `n`.
pub proof fn lemma_sum_monotone(s: EscrowView, token: Seq<u8>, g: StatusGroup, m: nat, n: nat)
    requires
        s.packages_ok(),
        m <= n,
    ensures
        s.group_sum(token, g, m) <= s.group_sum(token, g, n),
        0 <= s.group_sum(token, g, m),
    decreases n,
{
    if n > m {
        lemma_sum_monotone(s, token, g, m, (n - 1) as nat);
        if let Some(p) = s.indexed(n - 1) {
            assert(s.packages[s.index[(n - 1) as u64]].amount > 0);
        }
    } else if m > 0 {
        lemma_sum_monotone(s, token, g, (m - 1) as nat, (m - 1) as nat);
        if let Some(p) = s.indexed(m - 1) {
            assert(s.packages[s.index[(m - 1) as u64]].amount > 0);
        }
    }
}

/// A sum is at least the share of each package it covers.
pub proof fn lemma_sum_covers(s: EscrowView, token: Seq<u8>, g: StatusGroup, n: nat, k0: int)
    requires
        s.packages_ok(),
        0 <= k0 < n,
        s.indexed(k0) is Some,
    ensures
        s.group_sum(token, g, n) >= share(s.indexed(k0)->0, token, g),
    decreases n,
{
    if n - 1 == k0 {
        lemma_sum_monotone(s, token, g, (n - 1) as nat, (n - 1) as nat);
    } else {
        lemma_sum_covers(s, token, g, (n - 1) as nat, k0);
        if let Some(p) = s.indexed(n - 1) {
            assert(s.packages[s.index[(n - 1) as u64]].amount > 0);
        }
    }
}

/// Where a stored package sits in the index.
pub proof fn lemma_position(s: EscrowView, id: u64) -> (k: u64)
    requires
        s.index_ok(),
        s.packages.contains_key(id),
    ensures
        k < s.index_len,
        s.index[k] == id,
        s.indexed(k as int) == Some(s.packages[id]),
        forall|j: int| 0 <= j < s.index_len && j != k ==> #[trigger] s.indexed(j) is Some && s.index[j as u64] != id,
{
    let k = choose|k: u64| k < s.index_len && #[trigger] s.index[k] == id;
    assert(s.index.contains_key(k));
    assert forall|j: int| 0 <= j < s.index_len && j != k implies #[trigger] s.indexed(j) is Some && s.index[j as u64] != id by {
        assert(s.index.contains_key(j as u64));
        assert(s.packages.contains_key(s.index[j as u64]));
        assert(s.index[j as u64] != s.index[k]);
    }
    k
}

/// Storing a new version of a stored package changes each sum by the difference of its shares.
pub proof fn lemma_sum_update(s: EscrowView, id: u64, p2: PackageView, token: Seq<u8>, g: StatusGroup)
    requires
        s.packages_ok(),
        s.index_ok(),
        s.packages.contains_key(id),
    ensures
        ({
            let s2 = EscrowView { packages: s.packages.insert(id, p2), ..s };
            s2.group_sum(token, g, s.index_len as nat) == s.group_sum(token, g, s.index_len as nat)
                - share(s.packages[id], token, g) + share(p2, token, g)
        }),
{
    let s2 = EscrowView { packages: s.packages.insert(id, p2), ..s };
    let k0 = lemma_position(s, id);
    assert(s2.indexed(k0 as int) == Some(p2));
    assert forall|k: int| 0 <= k < s.index_len && k != k0 implies #[trigger] s.indexed(k) == s2.indexed(k) by {
        assert(s.index[k as u64] != id);
    }
    lemma_sum_replace(s, s2, token, g, s.index_len as nat, k0 as int);
}

/// Appending a new package to the index adds its share to each sum.
pub proof fn lemma_sum_append(s: EscrowView, id: u64, p: PackageView, token: Seq<u8>, g: StatusGroup)
    requires
        s.index_ok(),
        !s.packages.contains_key(id),
        s.index_len < u64::MAX,
    ensures
        ({
            let s2 = EscrowView {
                packages: s.packages.insert(id, p),
                index: s.index.insert(s.index_len, id),
                index_len: (s.index_len + 1) as u64,
                ..s
            };
            s2.group_sum(token, g, s2.index_len as nat) == s.group_sum(token, g, s.index_len as nat)
                + share(p, token, g)
        }),
{
    let s2 = EscrowView {
        packages: s.packages.insert(id, p),
        index: s.index.insert(s.index_len, id),
        index_len: (s.index_len + 1) as u64,
        ..s
    };
    assert forall|k: int| 0 <= k < s.index_len implies #[trigger] s.indexed(k) == s2.indexed(k) by {
        assert(s.index.contains_key(k as u64));
        assert(s.packages.contains_key(s.index[k as u64]));
        assert(s.index[k as u64] != id);
    }
    lemma_sum_frame(s, s2, token, g, s.index_len as nat);
    assert(s2.indexed(s.index_len as int) == Some(p));
}

/// The invariant reads only the packages, the index, the counter, the locked
/// amounts and the claimed totals.
pub proof fn lemma_wf_frame(s1: EscrowView, s2: EscrowView)
    requires
        s1.wf(),
        s2.packages == s1.packages,
        s2.index == s1.index,
        s2.index_len == s1.index_len,
        s2.package_counter == s1.package_counter,
        s2.locked == s1.locked,
        s2.claimed == s1.claimed || s2.claims_ok(),
        s2.admin_ok(),
    ensures
        s2.wf(),
{
    assert forall|token: Seq<u8>| #[trigger] s2.claimed_of(token) >= 0 by {
        assert(s1.claimed_of(token) >= 0);
    }
    assert forall|token: Seq<u8>| #[trigger] s2.locked_of(token) as int == s2.committed(token) by {
        assert forall|k: int| 0 <= k < s1.index_len implies #[trigger] s1.indexed(k) == s2.indexed(k) by {}
        lemma_sum_frame(s1, s2, token, StatusGroup::Committed, s1.index_len as nat);
        assert(s1.locked_of(token) as int == s1.committed(token));
    }
    assert(s2.packages_ok());
    assert(s2.index_ok());
}

impl EscrowView {
    /// The state with package `id` given status `st`.
    pub open spec fn with_status(self, id: u64, st: PackageStatus) -> EscrowView {
        EscrowView {
            packages: self.packages.insert(id, PackageView { status: st, ..self.packages[id] }),
            ..self
        }
    }

    /// The state with package `id` expiring at `e`.
    pub open spec fn with_expiry(self, id: u64, e: u64) -> EscrowView {
        EscrowView {
            packages: self.packages.insert(id, PackageView { expires_at: e, ..self.packages[id] }),
            ..self
        }
    }

    /// The state with `amount` less of `token` locked, never below zero.
    pub open spec fn unlocked(self, token: Seq<u8>, amount: i128) -> EscrowView {
        EscrowView {
            locked: self.locked.insert(
                token,
                if self.locked_of(token) > amount {
                    (self.locked_of(token) - amount) as i128
                } else {
                    0
                },
            ),
            ..self
        }
    }

    /// The state with `amount` more of `token` counted as claimed.
    pub open spec fn credited(self, token: Seq<u8>, amount: i128) -> EscrowView {
        EscrowView {
            claimed: self.claimed.insert(token, (self.claimed_of(token) + amount) as i128),
            ..self
        }
    }

    /// Package `id` leaves `Created` for `st` and its amount is unlocked.
    pub open spec fn closed_as(self, id: u64, st: PackageStatus) -> EscrowView {
        self.with_status(id, st).unlocked(self.packages[id].token, self.packages[id].amount)
    }
}

/// Locked amounts are never negative.
pub proof fn lemma_locked_nonneg(s: EscrowView, token: Seq<u8>)
    requires
        s.wf(),
    ensures
        s.locked_of(token) >= 0,
{
    lemma_sum_monotone(s, token, StatusGroup::Committed, s.index_len as nat, s.index_len as nat);
    assert(s.locked_of(token) as int == s.committed(token));
}

/// An open package holds at most what its token has locked.
pub proof fn lemma_locked_covers(s: EscrowView, id: u64)
    requires
        s.wf(),
        s.packages.contains_key(id),
        s.packages[id].status == PackageStatus::Created,
    ensures
        s.locked_of(s.packages[id].token) >= s.packages[id].amount,
{
    let p = s.packages[id];
    let k = lemma_position(s, id);
    lemma_sum_covers(s, p.token, StatusGroup::Committed, s.index_len as nat, k as int);
    assert(s.locked_of(p.token) as int == s.committed(p.token));
}

/// Closing an open package, with its amount unlocked, keeps the invariant.
pub proof fn lemma_close_wf(s: EscrowView, id: u64, st: PackageStatus)
    requires
        s.wf(),
        s.packages.contains_key(id),
        s.packages[id].status == PackageStatus::Created,
        st != PackageStatus::Created,
        st != PackageStatus::Expired,
    ensures
        s.closed_as(id, st).wf(),
        s.closed_as(id, st).locked_of(s.packages[id].token) == s.locked_of(s.packages[id].token)
            - s.packages[id].amount,
{
    let p = s.packages[id];
    let p2 = PackageView { status: st, ..p };
    let s2 = s.with_status(id, st);
    let s3 = s.closed_as(id, st);
    lemma_locked_covers(s, id);
    assert(s3.packages_ok());
    assert forall|token: Seq<u8>| #[trigger] s3.claimed_of(token) >= 0 by {
        assert(s.claimed_of(token) >= 0);
    }
    assert(s3.index_ok()) by {
        assert forall|i: u64| #[trigger] s3.packages.contains_key(i) implies exists|k: u64|
            k < s3.index_len && #[trigger] s3.index[k] == i by {
            assert(s.packages.contains_key(i));
            let k = choose|k: u64| k < s.index_len && #[trigger] s.index[k] == i;
            assert(s3.index[k] == i);
        }
    }
    assert forall|token: Seq<u8>| #[trigger] s3.locked_of(token) as int == s3.committed(token) by {
        lemma_sum_update(s, id, p2, token, StatusGroup::Committed);
        assert forall|k: int| 0 <= k < s2.index_len implies #[trigger] s2.indexed(k) == s3.indexed(k) by {}
        lemma_sum_frame(s2, s3, token, StatusGroup::Committed, s2.index_len as nat);
        assert(s.locked_of(token) as int == s.committed(token));
    }
}

/// Moving a package between two statuses other than `Created` keeps the invariant.
pub proof fn lemma_restatus_wf(s: EscrowView, id: u64, st: PackageStatus)
    requires
        s.wf(),
        s.packages.contains_key(id),
        s.packages[id].status != PackageStatus::Created,
        st != PackageStatus::Created,
        st != PackageStatus::Expired,
    ensures
        s.with_status(id, st).wf(),
{
    let p = s.packages[id];
    let p2 = PackageView { status: st, ..p };
    let s2 = s.with_status(id, st);
    assert(s2.packages_ok());
    assert forall|token: Seq<u8>| #[trigger] s2.claimed_of(token) >= 0 by {
        assert(s.claimed_of(token) >= 0);
    }
    assert(s2.index_ok()) by {
        assert forall|i: u64| #[trigger] s2.packages.contains_key(i) implies exists|k: u64|
            k < s2.index_len && #[trigger] s2.index[k] == i by {
            assert(s.packages.contains_key(i));
            let k = choose|k: u64| k < s.index_len && #[trigger] s.index[k] == i;
            assert(s2.index[k] == i);
        }
    }
    assert forall|token: Seq<u8>| #[trigger] s2.locked_of(token) as int == s2.committed(token) by {
        lemma_sum_update(s, id, p2, token, StatusGroup::Committed);
        assert(s.locked_of(token) as int == s.committed(token));
    }
}

/// Moving an expiry keeps the invariant.
pub proof fn lemma_reexpire_wf(s: EscrowView, id: u64, e: u64)
    requires
        s.wf(),
        s.packages.contains_key(id),
    ensures
        s.with_expiry(id, e).wf(),
{
    let p = s.packages[id];
    let p2 = PackageView { expires_at: e, ..p };
    let s2 = s.with_expiry(id, e);
    assert(s2.packages_ok());
    assert forall|token: Seq<u8>| #[trigger] s2.claimed_of(token) >= 0 by {
        assert(s.claimed_of(token) >= 0);
    }
    assert(s2.index_ok()) by {
        assert forall|i: u64| #[trigger] s2.packages.contains_key(i) implies exists|k: u64|
            k < s2.index_len && #[trigger] s2.index[k] == i by {
            assert(s.packages.contains_key(i));
            let k = choose|k: u64| k < s.index_len && #[trigger] s.index[k] == i;
            assert(s2.index[k] == i);
        }
    }
    assert forall|token: Seq<u8>| #[trigger] s2.locked_of(token) as int == s2.committed(token) by {
        lemma_sum_update(s, id, p2, token, StatusGroup::Committed);
        assert(s.locked_of(token) as int == s.committed(token));
    }
}

/// Counting a positive amount as claimed keeps the invariant.
pub proof fn lemma_credit_wf(s: EscrowView, token: Seq<u8>, amount: i128)
    requires
        s.wf(),
        amount > 0,
        s.claimed_of(token) + amount <= i128::MAX,
    ensures
        s.credited(token, amount).wf(),
{
    let s2 = s.credited(token, amount);
    assert forall|t: Seq<u8>| #[trigger] s2.claimed_of(t) >= 0 by {
        assert(s.claimed_of(t) >= 0);
    }
    lemma_wf_frame(s, s2);
}

} // verus!
